use crate::codec::{
    attributes, clean_text, element_text, element_vr, elements, file_meta, has_text, put_text,
    text_attribute, Attribute,
};
use dicom::dictionary_std::StandardDataDictionary;
use dicom::object::{FileDicomObject, InMemDicomObject};
use vstd::prelude::*;

verus! {

/// The patient attributes of one file.
#[derive(Debug)]
pub struct MetaPatient {
    pub patient_id: String,
    pub birth_date: String,
    pub sex: String,
    pub age: String,
}

/// The study attributes of one file.
#[derive(Debug)]
pub struct MetaStudy {
    pub study_uid: String,
    pub study_date: String,
    pub study_time: String,
    pub description: String,
}

/// The series attributes of one file.
#[derive(Debug)]
pub struct MetaSeries {
    pub series_uid: String,
    pub modality: String,
    pub instancenumber: String,
    pub imagepositionpatient: String,
    pub imageorientationpatient: String,
    pub pixelspacing: String,
    pub numberofframes: String,
    pub xraytubecurrent: String,
    pub kvp: String,
    pub filtertype: String,
    pub rows: String,
    pub columns: String,
    pub exposuretime: String,
    pub rescaleintercept: String,
    pub description: String,
}

/// The flat record of one file: its three attribute groups and where it was read from.
pub struct MetaDcm<'a> {
    patient: MetaPatient,
    study: MetaStudy,
    series: MetaSeries,
    path: &'a str,
}

/// A patient's attributes as texts.
pub struct PatientView {
    pub patient_id: Seq<char>,
    pub birth_date: Seq<char>,
    pub sex: Seq<char>,
    pub age: Seq<char>,
}

/// A study's attributes as texts.
pub struct StudyView {
    pub study_uid: Seq<char>,
    pub study_date: Seq<char>,
    pub study_time: Seq<char>,
    pub description: Seq<char>,
}

/// A series' attributes as texts.
pub struct SeriesView {
    pub series_uid: Seq<char>,
    pub modality: Seq<char>,
    pub instancenumber: Seq<char>,
    pub imagepositionpatient: Seq<char>,
    pub imageorientationpatient: Seq<char>,
    pub pixelspacing: Seq<char>,
    pub numberofframes: Seq<char>,
    pub xraytubecurrent: Seq<char>,
    pub kvp: Seq<char>,
    pub filtertype: Seq<char>,
    pub rows: Seq<char>,
    pub columns: Seq<char>,
    pub exposuretime: Seq<char>,
    pub rescaleintercept: Seq<char>,
    pub description: Seq<char>,
}

/// A file's record as texts.
pub struct RecordView {
    pub patient: PatientView,
    pub study: StudyView,
    pub series: SeriesView,
    pub path: Seq<char>,
}

impl View for MetaPatient {
    type V = PatientView;

    open spec fn view(&self) -> PatientView {
        PatientView {
            patient_id: self.patient_id@,
            birth_date: self.birth_date@,
            sex: self.sex@,
            age: self.age@,
        }
    }
}

impl View for MetaStudy {
    type V = StudyView;

    open spec fn view(&self) -> StudyView {
        StudyView {
            study_uid: self.study_uid@,
            study_date: self.study_date@,
            study_time: self.study_time@,
            description: self.description@,
        }
    }
}

impl View for MetaSeries {
    type V = SeriesView;

    open spec fn view(&self) -> SeriesView {
        SeriesView {
            series_uid: self.series_uid@,
            modality: self.modality@,
            instancenumber: self.instancenumber@,
            imagepositionpatient: self.imagepositionpatient@,
            imageorientationpatient: self.imageorientationpatient@,
            pixelspacing: self.pixelspacing@,
            numberofframes: self.numberofframes@,
            xraytubecurrent: self.xraytubecurrent@,
            kvp: self.kvp@,
            filtertype: self.filtertype@,
            rows: self.rows@,
            columns: self.columns@,
            exposuretime: self.exposuretime@,
            rescaleintercept: self.rescaleintercept@,
            description: self.description@,
        }
    }
}

impl<'a> View for MetaDcm<'a> {
    type V = RecordView;

    closed spec fn view(&self) -> RecordView {
        RecordView {
            patient: self.patient@,
            study: self.study@,
            series: self.series@,
            path: self.path@,
        }
    }
}

impl MetaPatient {
    /// A copy with the same texts.
    pub fn duplicate(&self) -> (r: MetaPatient)
        ensures
            r@ == self@,
    {
        MetaPatient {
            patient_id: self.patient_id.clone(),
            birth_date: self.birth_date.clone(),
            sex: self.sex.clone(),
            age: self.age.clone(),
        }
    }
}

/// The placeholder that stands for an attribute that is missing or has no text.
pub open spec fn unknown() -> Seq<char> {
    "Unknown"@
}

/// The text of the attribute under a tag, or the placeholder.
pub open spec fn text_or_unknown(
    obj: FileDicomObject<InMemDicomObject<StandardDataDictionary>>,
    group: u16,
    element: u16,
) -> Seq<char> {
    let tag = (group, element);
    if has_text(attributes(obj), tag) {
        attributes(obj)[tag].text->0
    } else {
        unknown()
    }
}

/// Reads one attribute as text; a missing or non-textual attribute reads as "Unknown".
pub fn get_value_for_tag(
    obj: &FileDicomObject<InMemDicomObject<StandardDataDictionary>>,
    group: u16,
    element: u16,
) -> (r: String)
    ensures
        r@ == text_or_unknown(*obj, group, element),
{
    match element_text(obj, group, element) {
        Some(text) => text,
        None => "Unknown".to_owned(),
    }
}

impl MetaStudy {
    /// A copy with the same texts.
    pub fn duplicate(&self) -> (r: MetaStudy)
        ensures
            r@ == self@,
    {
        MetaStudy {
            study_uid: self.study_uid.clone(),
            study_date: self.study_date.clone(),
            study_time: self.study_time.clone(),
            description: self.description.clone(),
        }
    }
}

impl MetaSeries {
    /// A copy with the same texts.
    pub fn duplicate(&self) -> (r: MetaSeries)
        ensures
            r@ == self@,
    {
        MetaSeries {
            series_uid: self.series_uid.clone(),
            modality: self.modality.clone(),
            instancenumber: self.instancenumber.clone(),
            imagepositionpatient: self.imagepositionpatient.clone(),
            imageorientationpatient: self.imageorientationpatient.clone(),
            pixelspacing: self.pixelspacing.clone(),
            numberofframes: self.numberofframes.clone(),
            xraytubecurrent: self.xraytubecurrent.clone(),
            kvp: self.kvp.clone(),
            filtertype: self.filtertype.clone(),
            rows: self.rows.clone(),
            columns: self.columns.clone(),
            exposuretime: self.exposuretime.clone(),
            rescaleintercept: self.rescaleintercept.clone(),
            description: self.description.clone(),
        }
    }
}

/// The record that the extractor reads from a decoded object: each field is the text of
/// one fixed attribute, or the placeholder.
pub open spec fn extracted(
    obj: FileDicomObject<InMemDicomObject<StandardDataDictionary>>,
    path: Seq<char>,
) -> RecordView {
    RecordView {
        patient: PatientView {
            patient_id: text_or_unknown(obj, 0x0010, 0x0020),
            birth_date: text_or_unknown(obj, 0x0010, 0x0030),
            sex: text_or_unknown(obj, 0x0010, 0x0040),
            age: text_or_unknown(obj, 0x0010, 0x1010),
        },
        study: StudyView {
            study_uid: text_or_unknown(obj, 0x0020, 0x000D),
            study_date: text_or_unknown(obj, 0x0008, 0x0020),
            study_time: text_or_unknown(obj, 0x0008, 0x0030),
            description: text_or_unknown(obj, 0x0008, 0x1030),
        },
        series: SeriesView {
            series_uid: text_or_unknown(obj, 0x0020, 0x000E),
            modality: text_or_unknown(obj, 0x0008, 0x0060),
            instancenumber: text_or_unknown(obj, 0x0020, 0x0013),
            imagepositionpatient: text_or_unknown(obj, 0x0020, 0x0032),
            imageorientationpatient: text_or_unknown(obj, 0x0020, 0x0037),
            pixelspacing: text_or_unknown(obj, 0x0028, 0x0030),
            numberofframes: text_or_unknown(obj, 0x0028, 0x0008),
            xraytubecurrent: text_or_unknown(obj, 0x0018, 0x1151),
            kvp: text_or_unknown(obj, 0x0018, 0x0060),
            filtertype: text_or_unknown(obj, 0x0018, 0x1160),
            rows: text_or_unknown(obj, 0x0028, 0x0010),
            columns: text_or_unknown(obj, 0x0028, 0x0011),
            exposuretime: text_or_unknown(obj, 0x0018, 0x1150),
            rescaleintercept: text_or_unknown(obj, 0x0028, 0x1052),
            description: text_or_unknown(obj, 0x0008, 0x103E),
        },
        path,
    }
}

impl<'a> MetaDcm<'a> {
    /// A record made of the given attribute groups and path.
    pub fn new(
        patient: MetaPatient,
        study: MetaStudy,
        series: MetaSeries,
        path: &'a str,
    ) -> (r: MetaDcm<'a>)
        ensures
            r@ == (RecordView { patient: patient@, study: study@, series: series@, path: path@ }),
    {
        MetaDcm { patient, study, series, path }
    }

    /// Extracts the record of a decoded object that was read from `path`. Every field is
    /// filled: with the attribute's text, or with "Unknown".
    pub fn from(
        obj: &'a FileDicomObject<InMemDicomObject<StandardDataDictionary>>,
        path: &'a str,
    ) -> (r: MetaDcm<'a>)
        ensures
            r@ == extracted(*obj, path@),
    {
        MetaDcm {
            patient: MetaPatient {
                patient_id: get_value_for_tag(obj, 0x0010, 0x0020),
                birth_date: get_value_for_tag(obj, 0x0010, 0x0030),
                sex: get_value_for_tag(obj, 0x0010, 0x0040),
                age: get_value_for_tag(obj, 0x0010, 0x1010),
            },
            study: MetaStudy {
                study_uid: get_value_for_tag(obj, 0x0020, 0x000D),
                study_date: get_value_for_tag(obj, 0x0008, 0x0020),
                study_time: get_value_for_tag(obj, 0x0008, 0x0030),
                description: get_value_for_tag(obj, 0x0008, 0x1030),
            },
            series: MetaSeries {
                series_uid: get_value_for_tag(obj, 0x0020, 0x000E),
                modality: get_value_for_tag(obj, 0x0008, 0x0060),
                instancenumber: get_value_for_tag(obj, 0x0020, 0x0013),
                imagepositionpatient: get_value_for_tag(obj, 0x0020, 0x0032),
                imageorientationpatient: get_value_for_tag(obj, 0x0020, 0x0037),
                pixelspacing: get_value_for_tag(obj, 0x0028, 0x0030),
                numberofframes: get_value_for_tag(obj, 0x0028, 0x0008),
                xraytubecurrent: get_value_for_tag(obj, 0x0018, 0x1151),
                kvp: get_value_for_tag(obj, 0x0018, 0x0060),
                filtertype: get_value_for_tag(obj, 0x0018, 0x1160),
                rows: get_value_for_tag(obj, 0x0028, 0x0010),
                columns: get_value_for_tag(obj, 0x0028, 0x0011),
                exposuretime: get_value_for_tag(obj, 0x0018, 0x1150),
                rescaleintercept: get_value_for_tag(obj, 0x0028, 0x1052),
                description: get_value_for_tag(obj, 0x0008, 0x103E),
            },
            path,
        }
    }

    pub fn get_patient_ref(&self) -> (r: &MetaPatient)
        ensures
            r@ == self@.patient,
    {
        &self.patient
    }

    pub fn get_study_ref(&self) -> (r: &MetaStudy)
        ensures
            r@ == self@.study,
    {
        &self.study
    }

    pub fn get_series_ref(&self) -> (r: &MetaSeries)
        ensures
            r@ == self@.series,
    {
        &self.series
    }

    pub fn get_path_ref(&self) -> (r: &str)
        ensures
            r@ == self@.path,
    {
        self.path
    }
}

/// One entry of the rewrite policy: a tag and the text that replaces its value.
pub struct Replacement {
    pub group: u16,
    pub element: u16,
    pub text: &'static str,
}

impl View for Replacement {
    type V = ((u16, u16), Seq<char>);

    open spec fn view(&self) -> ((u16, u16), Seq<char>) {
        ((self.group, self.element), self.text@)
    }
}

/// The rewrite policy as it is written down: tag and replacement, entry by entry.
pub open spec fn rewrite_entries() -> Seq<((u16, u16), Seq<char>)> {
    seq![
        ((0x0010u16, 0x0010u16), "Unknown Name"@),
        ((0x0010u16, 0x0030u16), "19000101"@),
        ((0x0010u16, 0x0032u16), "084545"@),
        ((0x0010u16, 0x0034u16), "19000101"@),
        ((0x0010u16, 0x4000u16), "Unknown Comments"@),
        ((0x0040u16, 0x1102u16), "Unknown Address"@),
        ((0x0040u16, 0x1103u16), "Unknown Phone"@),
        ((0x0008u16, 0x0081u16), "Unknown Address"@),
        ((0x0008u16, 0x0080u16), "Unknown Attribute"@),
        ((0x0038u16, 0x0010u16), "Unknown ID"@),
        ((0x0018u16, 0x1000u16), "Unknown Serial Number"@),
        ((0x0050u16, 0x0020u16), "Unknown Description"@),
    ]
}

/// The mapping that a list of entries stands for; of two entries with one tag the later
/// counts.
pub open spec fn policy_of(entries: Seq<((u16, u16), Seq<char>)>) -> Map<(u16, u16), Seq<char>>
    decreases entries.len(),
{
    if entries.len() == 0 {
        Map::empty()
    } else {
        policy_of(entries.drop_last()).insert(entries.last().0, entries.last().1)
    }
}

/// The rewrite policy: which attributes are rewritten, and to what text.
pub open spec fn rewrite_policy() -> Map<(u16, u16), Seq<char>> {
    policy_of(rewrite_entries())
}

/// What the rewrite policy holds: twelve tags, each with its text.
pub proof fn lemma_rewrite_policy()
    ensures
        rewrite_policy().dom() == set![
            (0x0010u16, 0x0010u16),
            (0x0010u16, 0x0030u16),
            (0x0010u16, 0x0032u16),
            (0x0010u16, 0x0034u16),
            (0x0010u16, 0x4000u16),
            (0x0040u16, 0x1102u16),
            (0x0040u16, 0x1103u16),
            (0x0008u16, 0x0081u16),
            (0x0008u16, 0x0080u16),
            (0x0038u16, 0x0010u16),
            (0x0018u16, 0x1000u16),
            (0x0050u16, 0x0020u16)
        ],
        rewrite_policy()[(0x0010u16, 0x0010u16)] == "Unknown Name"@,
        rewrite_policy()[(0x0010u16, 0x0030u16)] == "19000101"@,
        rewrite_policy()[(0x0010u16, 0x0032u16)] == "084545"@,
        rewrite_policy()[(0x0010u16, 0x0034u16)] == "19000101"@,
        rewrite_policy()[(0x0010u16, 0x4000u16)] == "Unknown Comments"@,
        rewrite_policy()[(0x0040u16, 0x1102u16)] == "Unknown Address"@,
        rewrite_policy()[(0x0040u16, 0x1103u16)] == "Unknown Phone"@,
        rewrite_policy()[(0x0008u16, 0x0081u16)] == "Unknown Address"@,
        rewrite_policy()[(0x0008u16, 0x0080u16)] == "Unknown Attribute"@,
        rewrite_policy()[(0x0038u16, 0x0010u16)] == "Unknown ID"@,
        rewrite_policy()[(0x0018u16, 0x1000u16)] == "Unknown Serial Number"@,
        rewrite_policy()[(0x0050u16, 0x0020u16)] == "Unknown Description"@,
{
    let e = rewrite_entries();
    let e11 = e.drop_last();
    let e10 = e11.drop_last();
    let e9 = e10.drop_last();
    let e8 = e9.drop_last();
    let e7 = e8.drop_last();
    let e6 = e7.drop_last();
    let e5 = e6.drop_last();
    let e4 = e5.drop_last();
    let e3 = e4.drop_last();
    let e2 = e3.drop_last();
    let e1 = e2.drop_last();
    let e0 = e1.drop_last();
    assert(policy_of(e0) == Map::<(u16, u16), Seq<char>>::empty());
    assert(policy_of(e1) == policy_of(e0).insert(e[0].0, e[0].1));
    assert(policy_of(e2) == policy_of(e1).insert(e[1].0, e[1].1));
    assert(policy_of(e3) == policy_of(e2).insert(e[2].0, e[2].1));
    assert(policy_of(e4) == policy_of(e3).insert(e[3].0, e[3].1));
    assert(policy_of(e5) == policy_of(e4).insert(e[4].0, e[4].1));
    assert(policy_of(e6) == policy_of(e5).insert(e[5].0, e[5].1));
    assert(policy_of(e7) == policy_of(e6).insert(e[6].0, e[6].1));
    assert(policy_of(e8) == policy_of(e7).insert(e[7].0, e[7].1));
    assert(policy_of(e9) == policy_of(e8).insert(e[8].0, e[8].1));
    assert(policy_of(e10) == policy_of(e9).insert(e[9].0, e[9].1));
    assert(policy_of(e11) == policy_of(e10).insert(e[10].0, e[10].1));
    assert(policy_of(e) == policy_of(e11).insert(e[11].0, e[11].1));
    assert(rewrite_policy().dom() =~= set![
        (0x0010u16, 0x0010u16),
        (0x0010u16, 0x0030u16),
        (0x0010u16, 0x0032u16),
        (0x0010u16, 0x0034u16),
        (0x0010u16, 0x4000u16),
        (0x0040u16, 0x1102u16),
        (0x0040u16, 0x1103u16),
        (0x0008u16, 0x0081u16),
        (0x0008u16, 0x0080u16),
        (0x0038u16, 0x0010u16),
        (0x0018u16, 0x1000u16),
        (0x0050u16, 0x0020u16)
    ]);
}

/// A data set after a policy was applied to it: it holds the same tags; an attribute
/// that the policy names holds the policy's text under its old value representation;
/// every other attribute is as it was.
pub open spec fn rewritten(
    elements: Map<(u16, u16), Attribute>,
    policy: Map<(u16, u16), Seq<char>>,
) -> Map<(u16, u16), Attribute> {
    Map::new(
        |tag: (u16, u16)| elements.contains_key(tag),
        |tag: (u16, u16)|
            if policy.contains_key(tag) {
                Attribute { vr: elements[tag].vr, text: Some(policy[tag]) }
            } else {
                elements[tag]
            },
    )
}

/// Whether a data set holds the same tags after a change as before it, and under every
/// tag but the given ones the very element that it held before.
pub open spec fn same_but<E>(
    before: Map<(u16, u16), E>,
    after: Map<(u16, u16), E>,
    tags: Set<(u16, u16)>,
) -> bool {
    &&& after.dom() == before.dom()
    &&& forall|tag: (u16, u16)|
        before.contains_key(tag) && !tags.contains(tag) ==> #[trigger] after[tag] == before[tag]
}

/// A text that does not end in a space or a NUL character has no padding to strip.
pub proof fn lemma_clean_text_unpadded(s: Seq<char>)
    requires
        s.len() > 0 ==> s.last() != ' ' && s.last() != '\0',
    ensures
        clean_text(s) == s,
{
}

/// The entries of the rewrite policy, in the order in which they are applied.
pub fn rewrite_table() -> (r: Vec<Replacement>)
    ensures
        r@.map_values(|e: Replacement| e@) == rewrite_entries(),
        forall|i: int| 0 <= i < r.len() ==> clean_text((#[trigger] r[i]).text@) == r[i].text@,
{
    let r = vec![
        Replacement { group: 0x0010, element: 0x0010, text: "Unknown Name" },
        Replacement { group: 0x0010, element: 0x0030, text: "19000101" },
        Replacement { group: 0x0010, element: 0x0032, text: "084545" },
        Replacement { group: 0x0010, element: 0x0034, text: "19000101" },
        Replacement { group: 0x0010, element: 0x4000, text: "Unknown Comments" },
        Replacement { group: 0x0040, element: 0x1102, text: "Unknown Address" },
        Replacement { group: 0x0040, element: 0x1103, text: "Unknown Phone" },
        Replacement { group: 0x0008, element: 0x0081, text: "Unknown Address" },
        Replacement { group: 0x0008, element: 0x0080, text: "Unknown Attribute" },
        Replacement { group: 0x0038, element: 0x0010, text: "Unknown ID" },
        Replacement { group: 0x0018, element: 0x1000, text: "Unknown Serial Number" },
        Replacement { group: 0x0050, element: 0x0020, text: "Unknown Description" },
    ];
    proof {
        reveal_strlit("Unknown Name");
        reveal_strlit("19000101");
        reveal_strlit("084545");
        reveal_strlit("Unknown Comments");
        reveal_strlit("Unknown Phone");
        reveal_strlit("Unknown Address");
        reveal_strlit("Unknown Attribute");
        reveal_strlit("Unknown ID");
        reveal_strlit("Unknown Serial Number");
        reveal_strlit("Unknown Description");
        assert(r@.map_values(|e: Replacement| e@) =~= rewrite_entries());
        assert forall|i: int| 0 <= i < r.len() implies clean_text((#[trigger] r[i]).text@)
            == r[i].text@ by {
            lemma_clean_text_unpadded(r[i].text@);
        }
    }
    r
}

/// Replaces the value of the attribute under the tag by the text, keeping its value
/// representation. An object without the attribute is left as it is: nothing is inserted.
pub fn replace_element_in_dcm_obj(
    obj: &mut FileDicomObject<InMemDicomObject<StandardDataDictionary>>,
    group: u16,
    element: u16,
    values: &str,
)
    ensures
        attributes(*final(obj)) == if attributes(*old(obj)).contains_key((group, element)) {
            attributes(*old(obj)).insert(
                (group, element),
                text_attribute(attributes(*old(obj))[(group, element)].vr, values@),
            )
        } else {
            attributes(*old(obj))
        },
        same_but(elements(*old(obj)), elements(*final(obj)), set![(group, element)]),
        file_meta(*final(obj)) == file_meta(*old(obj)),
{
    match element_vr(obj, group, element) {
        Some(vr) => {
            put_text(obj, group, element, vr, values);
            assert(elements(*obj).dom() =~= elements(*old(obj)).dom());
        },
        None => {},
    }
}

/// Applies the rewrite policy to a decoded object: every attribute that the policy names
/// and the object holds gets the policy's text under its old value representation.
/// Nothing is inserted, every element under a tag that the policy does not name stays
/// the very element that it was, and the file meta table stays as it was.
pub fn depersonalize_obj(obj: &mut FileDicomObject<InMemDicomObject<StandardDataDictionary>>)
    ensures
        attributes(*final(obj)) == rewritten(attributes(*old(obj)), rewrite_policy()),
        same_but(elements(*old(obj)), elements(*final(obj)), rewrite_policy().dom()),
        file_meta(*final(obj)) == file_meta(*old(obj)),
{
    let table = rewrite_table();
    let ghost entries = table@.map_values(|e: Replacement| e@);
    let ghost before = attributes(*obj);
    let ghost held = elements(*obj);
    let ghost meta = file_meta(*obj);
    let mut i: usize = 0;
    assert(attributes(*obj) =~= rewritten(before, policy_of(entries.take(0))));
    while i < table.len()
        invariant
            i <= table.len(),
            entries == table@.map_values(|e: Replacement| e@),
            forall|j: int|
                0 <= j < table.len() ==> clean_text((#[trigger] table[j]).text@) == table[j].text@,
            attributes(*obj) == rewritten(before, policy_of(entries.take(i as int))),
            same_but(held, elements(*obj), policy_of(entries.take(i as int)).dom()),
            file_meta(*obj) == meta,
        decreases table.len() - i,
    {
        let entry = &table[i];
        let ghost so_far = policy_of(entries.take(i as int));
        replace_element_in_dcm_obj(obj, entry.group, entry.element, entry.text);
        proof {
            assert(entries.take(i + 1).drop_last() == entries.take(i as int));
            assert(entries.take(i + 1).last() == entry@);
            assert(policy_of(entries.take(i + 1)) == so_far.insert(entry@.0, entry@.1));
            assert(attributes(*obj) =~= rewritten(before, so_far.insert(entry@.0, entry@.1)));
        }
        i = i + 1;
    }
    assert(entries.take(i as int) == entries);
}

} // verus!
