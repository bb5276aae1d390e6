use crate::text::{decimal, decimal_string, join, joined, trim, trimmed};
use crate::work_dcm::{MetaDcm, RecordView};
use vstd::prelude::*;
use vstd::string::StrSliceExecFns;

verus! {

/// Whether a directory entry of this name is hidden: the name begins with a dot.
pub open spec fn hidden_name(name: Seq<char>) -> bool {
    name.len() > 0 && name[0] == '.'
}

/// Whether the scan skips a directory entry, and with it all that lies beneath. An
/// entry is skipped when its name begins with a dot. `None` stands for a name that is
/// no text; such an entry is kept.
pub fn is_hidden(file_name: Option<&str>) -> (r: bool)
    ensures
        r == (file_name matches Some(name) && hidden_name(name@)),
{
    match file_name {
        Some(name) => name.unicode_len() > 0 && name.get_char(0) == '.',
        None => false,
    }
}

/// One entry that a walk of a directory tree comes to: how deep it lies below the root
/// of the walk, and its name, if the name is text.
pub struct EntryView {
    pub depth: nat,
    pub name: Option<Seq<char>>,
}

/// Whether an entry is hidden.
pub open spec fn hidden_entry(e: EntryView) -> bool {
    e.name matches Some(name) && hidden_name(name)
}

/// Whether entry `j` of a walk lies on the way from the root to entry `k`: it is `k`, or
/// a directory that `k` lies beneath. A walk comes to a directory before it comes to
/// what lies beneath it, so this holds where every entry after `j`, up to `k`, lies
/// deeper than `j`.
pub open spec fn on_the_way(walk: Seq<EntryView>, j: int, k: int) -> bool {
    &&& 0 <= j <= k < walk.len()
    &&& forall|m: int| j < m <= k ==> (#[trigger] walk[m]).depth > walk[j].depth
}

/// Whether entry `k` of a walk is visible: neither it nor a directory that it lies
/// beneath, however far above, is hidden.
pub open spec fn visible(walk: Seq<EntryView>, k: int) -> bool {
    forall|j: int| on_the_way(walk, j, k) ==> !hidden_entry(#[trigger] walk[j])
}

/// Whether a scan that has come to the entries of `walk` is skipping beneath entry `j`,
/// a hidden entry at depth `d`: every entry after it lies deeper, and it lies beneath no
/// hidden entry itself.
spec fn skipping_beneath(walk: Seq<EntryView>, j: int, d: nat) -> bool {
    &&& 0 <= j < walk.len()
    &&& hidden_entry(walk[j])
    &&& walk[j].depth == d
    &&& forall|m: int| j < m < walk.len() ==> (#[trigger] walk[m]).depth > d
    &&& forall|i: int| i < j && on_the_way(walk, i, j) ==> !hidden_entry(#[trigger] walk[i])
}

/// Whether the walk has left entry `j`: a later entry lies no deeper.
spec fn left_behind(walk: Seq<EntryView>, j: int) -> bool {
    exists|m: int| j < m < walk.len() && (#[trigger] walk[m]).depth <= walk[j].depth
}

/// What a scan knows of the entries that it has come to: where it is skipping, it is
/// beneath a hidden entry of the depth that it holds; where it is not, the walk has
/// left every hidden entry.
spec fn consistent(walk: Seq<EntryView>, skipping: Option<usize>) -> bool {
    &&& skipping matches Some(d) ==> exists|j: int| #[trigger] skipping_beneath(walk, j, d as nat)
    &&& skipping is None ==> forall|j: int|
        0 <= j < walk.len() && hidden_entry(#[trigger] walk[j]) ==> left_behind(walk, j)
}

/// A scan that is skipping beneath an entry is consistent.
proof fn lemma_skipping(walk: Seq<EntryView>, j: int, d: usize)
    requires
        skipping_beneath(walk, j, d as nat),
    ensures
        consistent(walk, Some(d)),
{
    assert(Some(d)->0 == d);
}

/// Whether the next entry lies beneath the hidden entry that a scan is skipping beneath.
spec fn beneath(skipping: Option<usize>, e: EntryView) -> bool {
    skipping matches Some(d) && e.depth > d
}

/// Where a scan is skipping after the next entry.
spec fn skipping_after(skipping: Option<usize>, e: EntryView) -> Option<usize> {
    if beneath(skipping, e) {
        skipping
    } else if hidden_entry(e) {
        Some(e.depth as usize)
    } else {
        None
    }
}

/// What lies on the way to an entry does not depend on the entries after it.
proof fn lemma_on_the_way_push(before: Seq<EntryView>, e: EntryView, i: int, j: int)
    requires
        j < before.len(),
    ensures
        on_the_way(before.push(e), i, j) == on_the_way(before, i, j),
{
    let walk = before.push(e);
    if 0 <= i <= j {
        assert(walk[i] == before[i]);
        if on_the_way(walk, i, j) {
            assert forall|m: int| i < m <= j implies (#[trigger] before[m]).depth
                > before[i].depth by {
                assert(walk[m] == before[m]);
            }
        }
        if on_the_way(before, i, j) {
            assert forall|m: int| i < m <= j implies (#[trigger] walk[m]).depth
                > walk[i].depth by {
                assert(walk[m] == before[m]);
            }
        }
    }
}

/// One step of a scan: the next entry is visible exactly when it is not hidden and not
/// beneath the hidden entry that the scan is skipping beneath, and the scan stays
/// consistent.
proof fn lemma_step(before: Seq<EntryView>, skipping: Option<usize>, e: EntryView)
    requires
        consistent(before, skipping),
        e.depth <= usize::MAX,
    ensures
        consistent(before.push(e), skipping_after(skipping, e)),
        visible(before.push(e), before.len() as int) <==> !beneath(skipping, e) && !hidden_entry(e),
{
    let walk = before.push(e);
    let k = before.len() as int;
    assert(walk[k] == e);
    assert forall|m: int| 0 <= m < k implies #[trigger] walk[m] == before[m] by {}
    if beneath(skipping, e) {
        let d = skipping->0 as nat;
        let j = choose|j: int| skipping_beneath(before, j, d);
        assert(walk[j] == before[j]);
        assert(on_the_way(walk, j, k));
        assert forall|i: int| i < j && on_the_way(walk, i, j) implies !hidden_entry(
            #[trigger] walk[i],
        ) by {
            lemma_on_the_way_push(before, e, i, j);
            assert(walk[i] == before[i]);
        }
        assert forall|m: int| j < m < walk.len() implies (#[trigger] walk[m]).depth > d by {
            if m < k {
                assert(walk[m] == before[m]);
            }
        }
        assert(skipping_beneath(walk, j, d));
    } else {
        // No hidden entry before the next one lies on the way to it, and the walk has
        // left every one of them.
        assert forall|j: int| 0 <= j < k && hidden_entry(#[trigger] walk[j]) implies !on_the_way(
            walk,
            j,
            k,
        ) && left_behind(walk, j) by {
            assert(walk[j] == before[j]);
            match skipping {
                Some(d) => {
                    let j0 = choose|j0: int| skipping_beneath(before, j0, d as nat);
                    if j == j0 {
                        assert(walk[k].depth <= walk[j].depth);
                    } else if j < j0 {
                        if on_the_way(before, j, j0) {
                            assert(!hidden_entry(before[j]));
                        }
                        let m = choose|m: int|
                            j < m <= j0 && !((#[trigger] before[m]).depth > before[j].depth);
                        assert(walk[m] == before[m]);
                    } else {
                        assert(before[j].depth > d);
                        assert(walk[k].depth <= walk[j].depth);
                    }
                },
                None => {
                    let m = choose|m: int|
                        j < m < before.len() && (#[trigger] before[m]).depth <= before[j].depth;
                    assert(walk[m] == before[m]);
                },
            }
        }
        if hidden_entry(e) {
            assert(on_the_way(walk, k, k));
            assert forall|i: int| i < k && on_the_way(walk, i, k) implies !hidden_entry(
                #[trigger] walk[i],
            ) by {}
            let d = e.depth as usize;
            assert(skipping_beneath(walk, k, d as nat));
            lemma_skipping(walk, k, d);
        } else {
            assert forall|j: int| 0 <= j < walk.len() && hidden_entry(
                #[trigger] walk[j],
            ) implies left_behind(walk, j) by {}
            assert forall|j: int| on_the_way(walk, j, k) implies !hidden_entry(
                #[trigger] walk[j],
            ) by {}
        }
    }
}

/// The scan of a directory tree, entry by entry: it keeps the visible entries and skips
/// the hidden ones with all that lies beneath them.
pub struct Scan {
    /// The depth of the hidden entry beneath which the scan is skipping, if it is.
    skipping: Option<usize>,
    /// The entries that the walk has come to.
    walk: Ghost<Seq<EntryView>>,
}

impl View for Scan {
    type V = Seq<EntryView>;

    closed spec fn view(&self) -> Seq<EntryView> {
        self.walk@
    }
}

/// The entry that a depth and a name stand for.
pub open spec fn entry_of(depth: usize, file_name: Option<&str>) -> EntryView {
    EntryView {
        depth: depth as nat,
        name: match file_name {
            Some(name) => Some(name@),
            None => None,
        },
    }
}

impl Scan {
    #[verifier::type_invariant]
    spec fn inv(self) -> bool {
        consistent(self.walk@, self.skipping)
    }

    /// A scan that has come to no entry yet.
    pub fn new() -> (r: Scan)
        ensures
            r@ == Seq::<EntryView>::empty(),
    {
        Scan { skipping: None, walk: Ghost(Seq::empty()) }
    }

    /// Takes the next entry of the walk and says whether the scan keeps it. An entry is
    /// kept exactly when it is visible: a hidden entry is skipped, and so is every entry
    /// beneath a hidden one, at whatever depth.
    pub fn step(&mut self, depth: usize, file_name: Option<&str>) -> (keep: bool)
        ensures
            final(self)@ == old(self)@.push(entry_of(depth, file_name)),
            keep == visible(final(self)@, old(self)@.len() as int),
    {
        proof {
            use_type_invariant(&*self);
            lemma_step(self.walk@, self.skipping, entry_of(depth, file_name));
        }
        let ghost walk = self.walk@.push(entry_of(depth, file_name));
        let beneath = match self.skipping {
            Some(d) => depth > d,
            None => false,
        };
        if beneath {
            *self = Scan { skipping: self.skipping, walk: Ghost(walk) };
            false
        } else if is_hidden(file_name) {
            *self = Scan { skipping: Some(depth), walk: Ghost(walk) };
            false
        } else {
            *self = Scan { skipping: None, walk: Ghost(walk) };
            true
        }
    }
}

/// The segment that an identifier gives: the identifier, or the default where it is
/// empty, without the white space around it.
pub open spec fn segment(id: Seq<char>, default: Seq<char>) -> Seq<char> {
    trimmed(if id.len() != 0 { id } else { default })
}

/// The folder of a file's series below the output root: patient, study and series, one
/// segment each.
pub open spec fn series_folder_of(r: RecordView, save_in: Seq<char>) -> Seq<char> {
    joined(
        joined(
            joined(save_in, segment(r.patient.patient_id, "NoPatientID"@)),
            segment(r.study.study_uid, "NoStudyUID"@),
        ),
        segment(r.series.series_uid, "NoSeriesUid"@),
    )
}

/// The folder that takes the files whose own folder could not be made.
pub open spec fn fallback_folder_of(save_in: Seq<char>) -> Seq<char> {
    joined(save_in, "out_data_dcm_finder"@)
}

/// The path of a file's copy: in the folder of its series where that folder was made,
/// else in the fallback folder, under the number of entries that the folder held.
pub open spec fn new_path_of(
    r: RecordView,
    save_in: Seq<char>,
    created: bool,
    count: nat,
) -> Seq<char> {
    joined(
        if created {
            series_folder_of(r, save_in)
        } else {
            fallback_folder_of(save_in)
        },
        decimal(count),
    )
}

fn segment_text<'a>(id: &'a str, default: &'a str) -> (r: &'a str)
    ensures
        r@ == segment(id@, default@),
{
    if id.unicode_len() != 0 {
        trim(id)
    } else {
        trim(default)
    }
}

/// The folder of the file's series below the output root.
pub fn series_folder(meta_dcm: &MetaDcm, save_in: &str) -> (r: String)
    ensures
        r@ == series_folder_of(meta_dcm@, save_in@),
{
    let patient_id = segment_text(meta_dcm.get_patient_ref().patient_id.as_str(), "NoPatientID");
    let study_uid = segment_text(meta_dcm.get_study_ref().study_uid.as_str(), "NoStudyUID");
    let series_uid = segment_text(meta_dcm.get_series_ref().series_uid.as_str(), "NoSeriesUid");
    let patient = join(save_in, patient_id);
    let study = join(patient.as_str(), study_uid);
    join(study.as_str(), series_uid)
}

/// The folder below the output root that takes the files whose own folder could not be
/// made.
pub fn fallback_folder(save_in: &str) -> (r: String)
    ensures
        r@ == fallback_folder_of(save_in@),
{
    join(save_in, "out_data_dcm_finder")
}

/// The path under which a file's copy is written. `created` says whether the folder of
/// its series could be made; `count_files` is the number of entries in the folder that
/// takes the file, counted before the copy is written.
pub fn create_new_path(
    meta_dcm: &MetaDcm,
    save_in: &str,
    created: bool,
    count_files: usize,
) -> (r: String)
    ensures
        r@ == new_path_of(meta_dcm@, save_in@, created, count_files as nat),
{
    let folder = if created {
        series_folder(meta_dcm, save_in)
    } else {
        fallback_folder(save_in)
    };
    let file_name = decimal_string(count_files);
    join(folder.as_str(), file_name.as_str())
}

} // verus!
