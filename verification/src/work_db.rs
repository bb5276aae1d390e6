use crate::index_model::{
    in_series, in_study, lemma_map_push, lemma_take_push, lemma_with_path_wf,
    lemma_with_patient_wf, lemma_with_series_wf, lemma_with_study_wf, of_patient, Error,
    IndexView, PathRowView, SeriesRowView, StudyRowView, MAX_IDENTIFIER_LEN,
};
use crate::report_laws::{counts_match, lemma_tree_counts};
use crate::work_dcm::{
    MetaDcm, MetaPatient, MetaSeries, MetaStudy, PatientView, SeriesView, StudyView,
};
use vstd::prelude::*;
use vstd::string::StrSliceExecFns;

verus! {

/// A series of the report, with the paths of its files.
#[derive(Debug)]
pub struct Se {
    pub series_uid: String,
    pub modality: String,
    pub instancenumber: String,
    pub imagepositionpatient: String,
    pub imageorientationpatient: String,
    pub pixelspacing: String,
    pub numberofframes: String,
    pub xraytubecurrent: String,
    pub kvp: String,
    pub filtertype: String,
    pub rows: String,
    pub columns: String,
    pub exposuretime: String,
    pub rescaleintercept: String,
    pub description: String,
    pub paths: Vec<String>,
}

/// A study of the report, with its series.
#[derive(Debug)]
pub struct St {
    pub study_uid: String,
    pub study_date: String,
    pub study_time: String,
    pub description: String,
    pub series: Vec<Se>,
}

/// A patient of the report, with the patient's studies.
#[derive(Debug)]
pub struct Pa {
    pub patient_id: String,
    pub birth_date: String,
    pub sex: String,
    pub age: String,
    pub studies: Vec<St>,
}

/// A series of the report as texts.
pub struct SeView {
    pub attrs: SeriesView,
    pub paths: Seq<Seq<char>>,
}

/// A study of the report as texts.
pub struct StView {
    pub attrs: StudyView,
    pub series: Seq<SeView>,
}

/// A patient of the report as texts.
pub struct PaView {
    pub attrs: PatientView,
    pub studies: Seq<StView>,
}

impl View for Se {
    type V = SeView;

    open spec fn view(&self) -> SeView {
        SeView {
            attrs: SeriesView {
                series_uid: self.series_uid@,
                modality: self.modality@,
                instancenumber: self.instancenumber@,
                imagepositionpatient: self.imagepositionpatient@,
                imageorientationpatient: self.imageorientationpatient@,
                pixelspacing: self.pixelspacing@,
                numberofframes: self.numberofframes@,
                xraytubecurrent: self.xraytubecurrent@,
                kvp: self.kvp@,
                filtertype: self.filtertype@,
                rows: self.rows@,
                columns: self.columns@,
                exposuretime: self.exposuretime@,
                rescaleintercept: self.rescaleintercept@,
                description: self.description@,
            },
            paths: self.paths@.map_values(|p: String| p@),
        }
    }
}

impl View for St {
    type V = StView;

    open spec fn view(&self) -> StView {
        StView {
            attrs: StudyView {
                study_uid: self.study_uid@,
                study_date: self.study_date@,
                study_time: self.study_time@,
                description: self.description@,
            },
            series: self.series@.map_values(|s: Se| s@),
        }
    }
}

impl View for Pa {
    type V = PaView;

    open spec fn view(&self) -> PaView {
        PaView {
            attrs: PatientView {
                patient_id: self.patient_id@,
                birth_date: self.birth_date@,
                sex: self.sex@,
                age: self.age@,
            },
            studies: self.studies@.map_values(|s: St| s@),
        }
    }
}

/// The number of files under a list of series.
pub open spec fn total_paths(series: Seq<SeView>) -> nat
    decreases series.len(),
{
    if series.len() == 0 {
        0
    } else {
        total_paths(series.drop_last()) + series.last().paths.len()
    }
}

/// The number of series under a list of studies.
pub open spec fn total_series(studies: Seq<StView>) -> nat
    decreases studies.len(),
{
    if studies.len() == 0 {
        0
    } else {
        total_series(studies.drop_last()) + studies.last().series.len()
    }
}

/// The number of files under a list of studies.
pub open spec fn total_files(studies: Seq<StView>) -> nat
    decreases studies.len(),
{
    if studies.len() == 0 {
        0
    } else {
        total_files(studies.drop_last()) + total_paths(studies.last().series)
    }
}

/// The files under the first series of a list are no more than those under all of them.
pub proof fn lemma_total_paths_prefix(series: Seq<SeView>, n: int)
    requires
        0 <= n <= series.len(),
    ensures
        total_paths(series.take(n)) <= total_paths(series),
    decreases series.len(),
{
    if n < series.len() {
        assert(series.drop_last().take(n) == series.take(n));
        lemma_total_paths_prefix(series.drop_last(), n);
    } else {
        assert(series.take(n) == series);
    }
}

/// The series and files under the first studies of a list are no more than those under
/// all of them.
pub proof fn lemma_totals_prefix(studies: Seq<StView>, n: int)
    requires
        0 <= n <= studies.len(),
    ensures
        total_series(studies.take(n)) <= total_series(studies),
        total_files(studies.take(n)) <= total_files(studies),
    decreases studies.len(),
{
    if n < studies.len() {
        assert(studies.drop_last().take(n) == studies.take(n));
        lemma_totals_prefix(studies.drop_last(), n);
    } else {
        assert(studies.take(n) == studies);
    }
}

impl Se {
    /// The number of files of the series.
    pub fn count_paths(&self) -> (n: usize)
        ensures
            n == self@.paths.len(),
    {
        self.paths.len()
    }
}

impl St {
    /// The number of series of the study.
    pub fn count_series(&self) -> (n: usize)
        ensures
            n == self@.series.len(),
    {
        self.series.len()
    }

    /// The numbers of series and of files of the study.
    pub fn count(&self) -> (n: (usize, usize))
        requires
            total_paths(self@.series) <= usize::MAX,
        ensures
            n.0 == self@.series.len(),
            n.1 == total_paths(self@.series),
    {
        let ghost series = self@.series;
        let mut len_paths: usize = 0;
        let mut i: usize = 0;
        while i < self.series.len()
            invariant
                i <= self.series.len(),
                series == self@.series,
                series.len() == self.series.len(),
                len_paths == total_paths(series.take(i as int)),
                total_paths(series) <= usize::MAX,
            decreases self.series.len() - i,
        {
            proof {
                assert(series.take(i + 1).drop_last() == series.take(i as int));
                assert(series.take(i + 1).last() == self.series[i as int]@);
                lemma_total_paths_prefix(series, i + 1);
            }
            len_paths = len_paths + self.series[i].count_paths();
            i = i + 1;
        }
        proof {
            assert(series.take(i as int) == series);
        }
        (self.count_series(), len_paths)
    }
}

impl St {
    /// The numbers of series and of files of the study, or `None` where the files are
    /// more than a machine integer counts.
    pub fn checked_count(&self) -> (r: Option<(usize, usize)>)
        ensures
            r is Some <==> total_paths(self@.series) <= usize::MAX,
            r matches Some(n) ==> n.0 == self@.series.len() && n.1 == total_paths(self@.series),
    {
        let ghost series = self@.series;
        let mut len_paths: usize = 0;
        let mut i: usize = 0;
        while i < self.series.len()
            invariant
                i <= self.series.len(),
                series == self@.series,
                series.len() == self.series.len(),
                len_paths == total_paths(series.take(i as int)),
            decreases self.series.len() - i,
        {
            proof {
                assert(series.take(i + 1).drop_last() == series.take(i as int));
                assert(series.take(i + 1).last() == self.series[i as int]@);
                lemma_total_paths_prefix(series, i + 1);
            }
            match len_paths.checked_add(self.series[i].count_paths()) {
                Some(sum) => {
                    len_paths = sum;
                },
                None => {
                    return None;
                },
            }
            i = i + 1;
        }
        proof {
            assert(series.take(i as int) == series);
        }
        Some((self.count_series(), len_paths))
    }
}

impl Pa {
    /// The numbers of studies, of series and of files of the patient, or `None` where the
    /// series or the files are more than a machine integer counts.
    pub fn checked_count(&self) -> (r: Option<(usize, usize, usize)>)
        ensures
            r is Some <==> total_series(self@.studies) <= usize::MAX && total_files(
                self@.studies,
            ) <= usize::MAX,
            r matches Some(n) ==> n.0 == self@.studies.len() && n.1 == total_series(
                self@.studies,
            ) && n.2 == total_files(self@.studies),
    {
        let ghost studies = self@.studies;
        let mut len_series: usize = 0;
        let mut len_paths: usize = 0;
        let mut i: usize = 0;
        while i < self.studies.len()
            invariant
                i <= self.studies.len(),
                studies == self@.studies,
                studies.len() == self.studies.len(),
                len_series == total_series(studies.take(i as int)),
                len_paths == total_files(studies.take(i as int)),
            decreases self.studies.len() - i,
        {
            proof {
                assert(studies.take(i + 1).drop_last() == studies.take(i as int));
                assert(studies.take(i + 1).last() == self.studies[i as int]@);
                lemma_totals_prefix(studies, i + 1);
            }
            let (tmp_len_series, tmp_len_paths) = match self.studies[i].checked_count() {
                Some(n) => n,
                None => {
                    return None;
                },
            };
            match len_series.checked_add(tmp_len_series) {
                Some(sum) => {
                    len_series = sum;
                },
                None => {
                    return None;
                },
            }
            match len_paths.checked_add(tmp_len_paths) {
                Some(sum) => {
                    len_paths = sum;
                },
                None => {
                    return None;
                },
            }
            i = i + 1;
        }
        proof {
            assert(studies.take(i as int) == studies);
        }
        Some((self.count_studies(), len_series, len_paths))
    }

    /// The number of studies of the patient.
    pub fn count_studies(&self) -> (n: usize)
        ensures
            n == self@.studies.len(),
    {
        self.studies.len()
    }

    /// The numbers of studies, of series and of files of the patient.
    pub fn count(&self) -> (n: (usize, usize, usize))
        requires
            total_series(self@.studies) <= usize::MAX,
            total_files(self@.studies) <= usize::MAX,
        ensures
            n.0 == self@.studies.len(),
            n.1 == total_series(self@.studies),
            n.2 == total_files(self@.studies),
    {
        let ghost studies = self@.studies;
        let len_studies = self.count_studies();
        let mut len_series: usize = 0;
        let mut len_paths: usize = 0;
        let mut i: usize = 0;
        while i < self.studies.len()
            invariant
                i <= self.studies.len(),
                studies == self@.studies,
                studies.len() == self.studies.len(),
                len_series == total_series(studies.take(i as int)),
                len_paths == total_files(studies.take(i as int)),
                total_series(studies) <= usize::MAX,
                total_files(studies) <= usize::MAX,
            decreases self.studies.len() - i,
        {
            proof {
                assert(studies.take(i + 1).drop_last() == studies.take(i as int));
                assert(studies.take(i + 1).last() == self.studies[i as int]@);
                lemma_totals_prefix(studies, i + 1);
            }
            let (tmp_len_series, tmp_len_paths) = self.studies[i].count();
            len_series = len_series + tmp_len_series;
            len_paths = len_paths + tmp_len_paths;
            i = i + 1;
        }
        proof {
            assert(studies.take(i as int) == studies);
        }
        (len_studies, len_series, len_paths)
    }
}

/// A row of the study table.
struct StudyRow {
    study: MetaStudy,
    patient_id: String,
}

/// A row of the series table.
struct SeriesRow {
    series: MetaSeries,
    study_uid: String,
}

/// A row of the path table.
struct PathRow {
    path: String,
    series_uid: Option<String>,
}

impl View for StudyRow {
    type V = StudyRowView;

    closed spec fn view(&self) -> StudyRowView {
        StudyRowView { study: self.study@, patient_id: self.patient_id@ }
    }
}

impl View for SeriesRow {
    type V = SeriesRowView;

    closed spec fn view(&self) -> SeriesRowView {
        SeriesRowView { series: self.series@, study_uid: self.study_uid@ }
    }
}

impl View for PathRow {
    type V = PathRowView;

    closed spec fn view(&self) -> PathRowView {
        PathRowView {
            path: self.path@,
            series_uid: match self.series_uid {
                Some(uid) => Some(uid@),
                None => None,
            },
        }
    }
}

/// The hierarchical index: four tables of rows, each keyed by an identifier that occurs
/// once. A row is inserted the first time its identifier is seen and never changes.
pub struct DcmIndex {
    patients: Vec<MetaPatient>,
    studies: Vec<StudyRow>,
    series: Vec<SeriesRow>,
    paths: Vec<PathRow>,
}

impl View for DcmIndex {
    type V = IndexView;

    closed spec fn view(&self) -> IndexView {
        IndexView {
            patients: self.patients@.map_values(|p: MetaPatient| p@),
            studies: self.studies@.map_values(|r: StudyRow| r@),
            series: self.series@.map_values(|r: SeriesRow| r@),
            paths: self.paths@.map_values(|r: PathRow| r@),
        }
    }
}

impl DcmIndex {
    #[verifier::type_invariant]
    spec fn inv(self) -> bool {
        self@.wf()
    }

    /// An index with four empty tables.
    pub fn create_dcm_tables() -> (r: DcmIndex)
        ensures
            r@ == IndexView::empty(),
            r@.wf(),
    {
        let r = DcmIndex {
            patients: Vec::new(),
            studies: Vec::new(),
            series: Vec::new(),
            paths: Vec::new(),
        };
        assert(r@.patients =~= Seq::empty());
        assert(r@.studies =~= Seq::empty());
        assert(r@.series =~= Seq::empty());
        assert(r@.paths =~= Seq::empty());
        assert(r@.patient_ids() =~= Seq::empty());
        assert(r@.study_uids() =~= Seq::empty());
        assert(r@.series_uids() =~= Seq::empty());
        assert(r@.path_keys() =~= Seq::empty());
        r
    }

    /// Inserts the patient unless the table holds a patient of that identifier, and
    /// returns the identifier. A new identifier of more than 64 characters is refused.
    pub fn get_or_add_patient(&mut self, p: &MetaPatient) -> (r: Result<String, Error>)
        ensures
            final(self)@.wf(),
            r is Ok <==> old(self)@.patient_outcome(p@) is Ok,
            r matches Ok(id) ==> id@ == p@.patient_id && final(self)@.has_patient(id@),
            r is Ok ==> final(self)@ == old(self)@.with_patient(p@),
            r matches Err(e) ==> old(self)@.patient_outcome(p@) == Err::<(), Error>(e),
            r is Err ==> final(self)@ == old(self)@,
    {
        proof {
            use_type_invariant(&*self);
        }
        proof {
            if old(self)@.patient_outcome(p@) is Ok {
                lemma_with_patient_wf(old(self)@, p@);
            }
        }
        if self.holds_patient(&p.patient_id) {
            return Ok(p.patient_id.clone());
        }
        if p.patient_id.as_str().unicode_len() > MAX_IDENTIFIER_LEN {
            return Err(Error::IdentifierTooLong);
        }
        let mut tables = DcmIndex::create_dcm_tables();
        core::mem::swap(self, &mut tables);
        let DcmIndex { mut patients, studies, series, paths } = tables;
        let row = p.duplicate();
        proof {
            lemma_map_push(patients@, row, |p: MetaPatient| p@);
            lemma_with_patient_wf(old(self)@, p@);
        }
        patients.push(row);
        *self = DcmIndex { patients, studies, series, paths };
        Ok(p.patient_id.clone())
    }

    /// Inserts the study under the patient unless the table holds a study of that
    /// identifier, and returns the identifier. A new identifier of more than 64
    /// characters is refused, and so is a new study under a patient that the index does
    /// not hold.
    pub fn get_or_add_study(
        &mut self,
        p: &MetaStudy,
        patient_id: &String,
    ) -> (r: Result<String, Error>)
        ensures
            final(self)@.wf(),
            r is Ok <==> old(self)@.study_outcome(p@, patient_id@) is Ok,
            r matches Ok(id) ==> id@ == p@.study_uid && final(self)@.has_study(id@),
            r is Ok ==> final(self)@ == old(self)@.with_study(p@, patient_id@),
            r matches Err(e) ==> old(self)@.study_outcome(p@, patient_id@) == Err::<(), Error>(e),
            r is Err ==> final(self)@ == old(self)@,
    {
        proof {
            use_type_invariant(&*self);
        }
        proof {
            if old(self)@.study_outcome(p@, patient_id@) is Ok {
                lemma_with_study_wf(old(self)@, p@, patient_id@);
            }
        }
        if self.holds_study(&p.study_uid) {
            return Ok(p.study_uid.clone());
        }
        if p.study_uid.as_str().unicode_len() > MAX_IDENTIFIER_LEN {
            return Err(Error::IdentifierTooLong);
        }
        if !self.holds_patient(patient_id) {
            return Err(Error::UnknownParent);
        }
        let mut tables = DcmIndex::create_dcm_tables();
        core::mem::swap(self, &mut tables);
        let DcmIndex { patients, mut studies, series, paths } = tables;
        let row = StudyRow { study: p.duplicate(), patient_id: patient_id.clone() };
        proof {
            lemma_map_push(studies@, row, |r: StudyRow| r@);
            lemma_with_study_wf(old(self)@, p@, patient_id@);
        }
        studies.push(row);
        *self = DcmIndex { patients, studies, series, paths };
        Ok(p.study_uid.clone())
    }

    /// Inserts the series under the study unless the table holds a series of that
    /// identifier, and returns the identifier. A new identifier of more than 64
    /// characters is refused, and so is a new series under a study that the index does
    /// not hold.
    pub fn get_or_add_series(
        &mut self,
        p: &MetaSeries,
        study_uid: &String,
    ) -> (r: Result<String, Error>)
        ensures
            final(self)@.wf(),
            r is Ok <==> old(self)@.series_outcome(p@, study_uid@) is Ok,
            r matches Ok(id) ==> id@ == p@.series_uid && final(self)@.has_series(id@),
            r is Ok ==> final(self)@ == old(self)@.with_series(p@, study_uid@),
            r matches Err(e) ==> old(self)@.series_outcome(p@, study_uid@) == Err::<(), Error>(e),
            r is Err ==> final(self)@ == old(self)@,
    {
        proof {
            use_type_invariant(&*self);
        }
        proof {
            if old(self)@.series_outcome(p@, study_uid@) is Ok {
                lemma_with_series_wf(old(self)@, p@, study_uid@);
            }
        }
        if self.holds_series(&p.series_uid) {
            return Ok(p.series_uid.clone());
        }
        if p.series_uid.as_str().unicode_len() > MAX_IDENTIFIER_LEN {
            return Err(Error::IdentifierTooLong);
        }
        if !self.holds_study(study_uid) {
            return Err(Error::UnknownParent);
        }
        let mut tables = DcmIndex::create_dcm_tables();
        core::mem::swap(self, &mut tables);
        let DcmIndex { patients, studies, mut series, paths } = tables;
        let row = SeriesRow { series: p.duplicate(), study_uid: study_uid.clone() };
        proof {
            lemma_map_push(series@, row, |r: SeriesRow| r@);
            lemma_with_series_wf(old(self)@, p@, study_uid@);
        }
        series.push(row);
        *self = DcmIndex { patients, studies, series, paths };
        Ok(p.series_uid.clone())
    }

    /// Records the path under no series, unless the table holds the path.
    pub fn insert_path(&mut self, path: &str)
        ensures
            final(self)@.wf(),
            final(self)@ == old(self)@.with_path(path@, None),
    {
        proof {
            use_type_invariant(&*self);
            lemma_with_path_wf(self@, path@, None);
        }
        let key = path.to_owned();
        if !self.holds_path(&key) {
            self.push_path(PathRow { path: key, series_uid: None });
        }
    }

    /// Records the path under the series, unless the table holds the path. A new path
    /// under a series that the index does not hold is refused.
    pub fn insert_path_with_uid(
        &mut self,
        path: &str,
        series_uid: &String,
    ) -> (r: Result<(), Error>)
        ensures
            final(self)@.wf(),
            r == old(self)@.path_outcome(path@, series_uid@),
            r is Ok ==> final(self)@ == old(self)@.with_path(path@, Some(series_uid@)),
            r is Err ==> final(self)@ == old(self)@,
    {
        proof {
            use_type_invariant(&*self);
        }
        let key = path.to_owned();
        if self.holds_path(&key) {
            return Ok(());
        }
        if !self.holds_series(series_uid) {
            return Err(Error::UnknownParent);
        }
        proof {
            lemma_with_path_wf(self@, path@, Some(series_uid@));
        }
        self.push_path(PathRow { path: key, series_uid: Some(series_uid.clone()) });
        Ok(())
    }

    /// Takes one file's record: the patient, the study under it, the series under that
    /// and the path under the series. Where a link of the chain is refused, the path is
    /// recorded under no series; it is recorded in every case.
    pub fn insert_dcm(&mut self, meta_dcm: &MetaDcm)
        ensures
            final(self)@.wf(),
            final(self)@ == old(self)@.ingest(meta_dcm@),
            final(self)@.has_path(meta_dcm@.path),
    {
        proof {
            use_type_invariant(&*self);
            let v = old(self)@;
            let r = meta_dcm@;
            if v.patient_outcome(r.patient) is Ok {
                lemma_with_patient_wf(v, r.patient);
                let a = v.with_patient(r.patient);
                if a.study_outcome(r.study, r.patient.patient_id) is Ok {
                    lemma_with_study_wf(a, r.study, r.patient.patient_id);
                    let b = a.with_study(r.study, r.patient.patient_id);
                    if b.series_outcome(r.series, r.study.study_uid) is Ok {
                        lemma_with_series_wf(b, r.series, r.study.study_uid);
                        let c = b.with_series(r.series, r.study.study_uid);
                        lemma_with_path_wf(c, r.path, Some(r.series.series_uid));
                    } else {
                        lemma_with_path_wf(b, r.path, None);
                    }
                } else {
                    lemma_with_path_wf(a, r.path, None);
                }
            } else {
                lemma_with_path_wf(v, r.path, None);
            }
        }
        let linked = match self.get_or_add_patient(meta_dcm.get_patient_ref()) {
            Ok(patient_id) => {
                match self.get_or_add_study(meta_dcm.get_study_ref(), &patient_id) {
                    Ok(study_uid) => {
                        match self.get_or_add_series(meta_dcm.get_series_ref(), &study_uid) {
                            Ok(series_uid) => {
                                self.insert_path_with_uid(
                                    meta_dcm.get_path_ref(),
                                    &series_uid,
                                ).is_ok()
                            },
                            Err(_) => false,
                        }
                    },
                    Err(_) => false,
                }
            },
            Err(_) => false,
        };
        if !linked {
            self.insert_path(meta_dcm.get_path_ref());
        }
    }

    /// The paths of the files of one series, in the order in which they were recorded.
    pub fn get_paths_as_vec(&self, series_uid: &String) -> (r: Vec<String>)
        ensures
            r@.map_values(|p: String| p@) == self@.paths_of(series_uid@),
    {
        let ghost rows = self@.paths;
        let ghost pred = in_series(series_uid@);
        let ghost key = |row: PathRowView| row.path;
        let mut paths: Vec<String> = Vec::new();
        let mut i: usize = 0;
        assert(rows.take(0) == Seq::<PathRowView>::empty());
        assert(rows.take(0).filter(pred) == Seq::<PathRowView>::empty()) by {
            reveal(Seq::filter);
        }
        assert(paths@.map_values(|p: String| p@) == rows.take(0).filter(pred).map_values(key));
        while i < self.paths.len()
            invariant
                i <= self.paths.len(),
                rows == self@.paths,
                pred == in_series(series_uid@),
                key == |row: PathRowView| row.path,
                paths@.map_values(|p: String| p@) == rows.take(i as int).filter(pred).map_values(
                    key,
                ),
            decreases self.paths.len() - i,
        {
            let row = &self.paths[i];
            let linked = match &row.series_uid {
                Some(uid) => *uid == *series_uid,
                None => false,
            };
            proof {
                lemma_take_push(rows, i as int);
                rows.take(i as int).lemma_filter_push(rows[i as int], pred);
                assert(linked == pred(rows[i as int]));
            }
            if linked {
                let path = row.path.clone();
                proof {
                    lemma_map_push(paths@, path, |p: String| p@);
                    lemma_map_push(rows.take(i as int).filter(pred), rows[i as int], key);
                }
                paths.push(path);
            }
            i = i + 1;
        }
        assert(rows.take(i as int) == rows);
        paths
    }

    /// The series of one study, each with its paths, in the order in which they were
    /// inserted.
    pub fn get_series_as_struct(&self, study_uid: &String) -> (r: Vec<Se>)
        ensures
            r@.map_values(|s: Se| s@) == self@.series_of(study_uid@),
    {
        let ghost rows = self@.series;
        let ghost pred = in_study(study_uid@);
        let ghost node = |row: SeriesRowView| self@.series_node(row);
        let mut series: Vec<Se> = Vec::new();
        let mut i: usize = 0;
        assert(rows.take(0) == Seq::<SeriesRowView>::empty());
        assert(rows.take(0).filter(pred) == Seq::<SeriesRowView>::empty()) by {
            reveal(Seq::filter);
        }
        assert(series@.map_values(|s: Se| s@) == rows.take(0).filter(pred).map_values(node));
        while i < self.series.len()
            invariant
                i <= self.series.len(),
                rows == self@.series,
                pred == in_study(study_uid@),
                node == |row: SeriesRowView| self@.series_node(row),
                series@.map_values(|s: Se| s@) == rows.take(i as int).filter(pred).map_values(node),
            decreases self.series.len() - i,
        {
            let row = &self.series[i];
            let linked = row.study_uid == *study_uid;
            proof {
                lemma_take_push(rows, i as int);
                rows.take(i as int).lemma_filter_push(rows[i as int], pred);
                assert(linked == pred(rows[i as int]));
            }
            if linked {
                let paths = self.get_paths_as_vec(&row.series.series_uid);
                let se = series_node(&row.series, paths);
                proof {
                    assert(se@ == node(rows[i as int]));
                    lemma_map_push(series@, se, |s: Se| s@);
                    lemma_map_push(rows.take(i as int).filter(pred), rows[i as int], node);
                }
                series.push(se);
            }
            i = i + 1;
        }
        assert(rows.take(i as int) == rows);
        series
    }

    /// The studies of one patient, each with its series, in the order in which they were
    /// inserted.
    pub fn get_studies_as_struct(&self, patient_id: &String) -> (r: Vec<St>)
        ensures
            r@.map_values(|s: St| s@) == self@.studies_of(patient_id@),
    {
        let ghost rows = self@.studies;
        let ghost pred = of_patient(patient_id@);
        let ghost node = |row: StudyRowView| self@.study_node(row);
        let mut studies: Vec<St> = Vec::new();
        let mut i: usize = 0;
        assert(rows.take(0) == Seq::<StudyRowView>::empty());
        assert(rows.take(0).filter(pred) == Seq::<StudyRowView>::empty()) by {
            reveal(Seq::filter);
        }
        assert(studies@.map_values(|s: St| s@) == rows.take(0).filter(pred).map_values(node));
        while i < self.studies.len()
            invariant
                i <= self.studies.len(),
                rows == self@.studies,
                pred == of_patient(patient_id@),
                node == |row: StudyRowView| self@.study_node(row),
                studies@.map_values(|s: St| s@) == rows.take(i as int).filter(pred).map_values(
                    node,
                ),
            decreases self.studies.len() - i,
        {
            let row = &self.studies[i];
            let linked = row.patient_id == *patient_id;
            proof {
                lemma_take_push(rows, i as int);
                rows.take(i as int).lemma_filter_push(rows[i as int], pred);
                assert(linked == pred(rows[i as int]));
            }
            if linked {
                let series = self.get_series_as_struct(&row.study.study_uid);
                let st = St {
                    study_uid: row.study.study_uid.clone(),
                    study_date: row.study.study_date.clone(),
                    study_time: row.study.study_time.clone(),
                    description: row.study.description.clone(),
                    series,
                };
                proof {
                    assert(st@ == node(rows[i as int]));
                    lemma_map_push(studies@, st, |s: St| s@);
                    lemma_map_push(rows.take(i as int).filter(pred), rows[i as int], node);
                }
                studies.push(st);
            }
            i = i + 1;
        }
        assert(rows.take(i as int) == rows);
        studies
    }

    /// The report: every patient with the studies, series and paths under it, in the
    /// order in which the patients were inserted.
    pub fn get_patients_as_struct(&self) -> (r: Vec<Pa>)
        ensures
            r@.map_values(|p: Pa| p@) == self@.tree(),
    {
        let ghost rows = self@.patients;
        let ghost node = |p: PatientView| self@.patient_node(p);
        let mut patients: Vec<Pa> = Vec::new();
        let mut i: usize = 0;
        assert(patients@.map_values(|p: Pa| p@) == rows.take(0).map_values(node));
        while i < self.patients.len()
            invariant
                i <= self.patients.len(),
                rows == self@.patients,
                node == |p: PatientView| self@.patient_node(p),
                patients@.map_values(|p: Pa| p@) == rows.take(i as int).map_values(node),
            decreases self.patients.len() - i,
        {
            let row = &self.patients[i];
            let studies = self.get_studies_as_struct(&row.patient_id);
            let pa = Pa {
                patient_id: row.patient_id.clone(),
                birth_date: row.birth_date.clone(),
                sex: row.sex.clone(),
                age: row.age.clone(),
                studies,
            };
            proof {
                lemma_take_push(rows, i as int);
                assert(pa@ == node(rows[i as int]));
                lemma_map_push(patients@, pa, |p: Pa| p@);
                lemma_map_push(rows.take(i as int), rows[i as int], node);
            }
            patients.push(pa);
            i = i + 1;
        }
        assert(rows.take(i as int) == rows);
        patients
    }

    /// The report of a run: every patient with the studies, series and paths under it.
    /// The counts of each patient are the numbers of studies, series and files that the
    /// index links to the patient, so `count` can be called on each.
    pub fn export_result(&self) -> (r: Vec<Pa>)
        ensures
            r@.map_values(|p: Pa| p@) == self@.tree(),
            r.len() == self@.patients.len(),
            forall|i: int| 0 <= i < r.len() ==> counts_match(self@, (#[trigger] r[i])@),
            forall|i: int|
                0 <= i < r.len() ==> total_series((#[trigger] r[i])@.studies) <= usize::MAX,
            forall|i: int|
                0 <= i < r.len() ==> total_files((#[trigger] r[i])@.studies) <= usize::MAX,
    {
        let r = self.get_patients_as_struct();
        let series_rows = self.series.len();
        let path_rows = self.paths.len();
        proof {
            use_type_invariant(self);
            lemma_tree_counts(self@);
            assert(self@.series.len() == series_rows);
            assert(self@.paths.len() == path_rows);
            assert(r@.map_values(|p: Pa| p@).len() == r.len());
            assert forall|i: int| 0 <= i < r.len() implies counts_match(
                self@,
                (#[trigger] r[i])@,
            ) by {
                assert(r@.map_values(|p: Pa| p@)[i] == r[i]@);
            }
        }
        r
    }

    /// Appends a row to the path table.
    fn push_path(&mut self, row: PathRow)
        requires
            old(self)@.with_path(row@.path, row@.series_uid).wf(),
            !old(self)@.has_path(row@.path),
        ensures
            final(self)@ == old(self)@.with_path(row@.path, row@.series_uid),
    {
        let mut tables = DcmIndex::create_dcm_tables();
        core::mem::swap(self, &mut tables);
        let DcmIndex { patients, studies, series, mut paths } = tables;
        proof {
            lemma_map_push(paths@, row, |r: PathRow| r@);
        }
        paths.push(row);
        *self = DcmIndex { patients, studies, series, paths };
    }

    fn holds_study(&self, study_uid: &String) -> (r: bool)
        ensures
            r == self@.has_study(study_uid@),
    {
        let mut i: usize = 0;
        while i < self.studies.len()
            invariant
                i <= self.studies.len(),
                forall|j: int| 0 <= j < i ==> self@.study_uids()[j] != study_uid@,
            decreases self.studies.len() - i,
        {
            if self.studies[i].study.study_uid == *study_uid {
                assert(self@.study_uids()[i as int] == study_uid@);
                return true;
            }
            i = i + 1;
        }
        false
    }

    fn holds_series(&self, series_uid: &String) -> (r: bool)
        ensures
            r == self@.has_series(series_uid@),
    {
        let mut i: usize = 0;
        while i < self.series.len()
            invariant
                i <= self.series.len(),
                forall|j: int| 0 <= j < i ==> self@.series_uids()[j] != series_uid@,
            decreases self.series.len() - i,
        {
            if self.series[i].series.series_uid == *series_uid {
                assert(self@.series_uids()[i as int] == series_uid@);
                return true;
            }
            i = i + 1;
        }
        false
    }

    fn holds_path(&self, path: &String) -> (r: bool)
        ensures
            r == self@.has_path(path@),
    {
        let mut i: usize = 0;
        while i < self.paths.len()
            invariant
                i <= self.paths.len(),
                forall|j: int| 0 <= j < i ==> self@.path_keys()[j] != path@,
            decreases self.paths.len() - i,
        {
            if self.paths[i].path == *path {
                assert(self@.path_keys()[i as int] == path@);
                return true;
            }
            i = i + 1;
        }
        false
    }

    fn holds_patient(&self, patient_id: &String) -> (r: bool)
        ensures
            r == self@.has_patient(patient_id@),
    {
        let mut i: usize = 0;
        while i < self.patients.len()
            invariant
                i <= self.patients.len(),
                forall|j: int| 0 <= j < i ==> self@.patient_ids()[j] != patient_id@,
            decreases self.patients.len() - i,
        {
            if self.patients[i].patient_id == *patient_id {
                assert(self@.patient_ids()[i as int] == patient_id@);
                return true;
            }
            i = i + 1;
        }
        false
    }
}

/// One series of the report, made of a series row's attributes and the paths under it.
fn series_node(series: &MetaSeries, paths: Vec<String>) -> (r: Se)
    ensures
        r@ == (SeView { attrs: series@, paths: paths@.map_values(|p: String| p@) }),
{
    Se {
        series_uid: series.series_uid.clone(),
        modality: series.modality.clone(),
        instancenumber: series.instancenumber.clone(),
        imagepositionpatient: series.imagepositionpatient.clone(),
        imageorientationpatient: series.imageorientationpatient.clone(),
        pixelspacing: series.pixelspacing.clone(),
        numberofframes: series.numberofframes.clone(),
        xraytubecurrent: series.xraytubecurrent.clone(),
        kvp: series.kvp.clone(),
        filtertype: series.filtertype.clone(),
        rows: series.rows.clone(),
        columns: series.columns.clone(),
        exposuretime: series.exposuretime.clone(),
        rescaleintercept: series.rescaleintercept.clone(),
        description: series.description.clone(),
        paths,
    }
}

} // verus!
