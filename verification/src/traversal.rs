//! Candidate selection: which enumerated entries are taken up, and under which
//! sequence index.
//!
//! The caller walks the directory tree and hands over the entries in the order
//! it met them. An entry is a candidate when the extension of its file name is
//! `jpg`. Candidates are numbered from one in that order, before any of them is
//! opened, so the index of a file depends on the enumeration alone.

use vstd::prelude::*;
use vstd::utf8::encode_utf8;

verus! {

/// The byte `.`.
pub const DOT: u8 = 0x2e;

/// The extension a candidate must carry: the bytes of `jpg`.
pub open spec fn target_extension() -> Seq<u8> {
    seq![0x6au8, 0x70u8, 0x67u8]
}

/// Position of the last `.` in a file name, if there is one.
pub open spec fn last_dot(name: Seq<u8>) -> Option<int>
    decreases name.len(),
{
    if name.len() == 0 {
        None
    } else if name.last() == DOT {
        Some(name.len() - 1)
    } else {
        last_dot(name.drop_last())
    }
}

/// The extension of a file name: what follows its last `.`, unless the name
/// has no `.`, has its only `.` in front, or is `..`.
pub open spec fn extension(name: Seq<u8>) -> Option<Seq<u8>> {
    if name == seq![DOT, DOT] {
        None
    } else {
        match last_dot(name) {
            None => None,
            Some(i) => if i == 0 {
                None
            } else {
                Some(name.subrange(i + 1, name.len() as int))
            },
        }
    }
}

/// Whether a file name, given as bytes, carries the target extension.
pub open spec fn is_candidate_name(name: Seq<u8>) -> bool {
    extension(name) == Some(target_extension())
}

/// Whether a file name carries the target extension. The extension is taken
/// from the name's UTF-8 encoding.
pub open spec fn is_candidate(file_name: Seq<char>) -> bool {
    is_candidate_name(encode_utf8(file_name))
}

/// `last_dot` finds a `.` with none behind it, and finds one whenever the
/// name holds any.
pub proof fn lemma_last_dot(name: Seq<u8>)
    ensures
        match last_dot(name) {
            Some(i) => {
                &&& 0 <= i < name.len()
                &&& name[i] == DOT
                &&& forall|j: int| i < j < name.len() ==> name[j] != DOT
            },
            None => forall|j: int| 0 <= j < name.len() ==> name[j] != DOT,
        },
    decreases name.len(),
{
    if name.len() > 0 && name.last() != DOT {
        let front = name.drop_last();
        lemma_last_dot(front);
        match last_dot(front) {
            Some(i) => {
                assert(name[i] == front[i]);
                assert forall|j: int| i < j < name.len() implies name[j] != DOT by {
                    if j < front.len() {
                        assert(name[j] == front[j]);
                    }
                }
            },
            None => {
                assert forall|j: int| 0 <= j < name.len() implies name[j] != DOT by {
                    if j < front.len() {
                        assert(name[j] == front[j]);
                    }
                }
            },
        }
    }
}

/// A name carries the target extension exactly when it ends in `.jpg` and has
/// at least one byte in front of that dot.
pub proof fn lemma_candidate_iff_suffix(name: Seq<u8>)
    ensures
        is_candidate_name(name) <==> {
            &&& name.len() > 4
            &&& name[name.len() - 4] == DOT
            &&& name[name.len() - 3] == 0x6au8
            &&& name[name.len() - 2] == 0x70u8
            &&& name[name.len() - 1] == 0x67u8
        },
{
    lemma_last_dot(name);
    let n = name.len() as int;
    if is_candidate_name(name) {
        let i = last_dot(name)->0;
        let ext = name.subrange(i + 1, n);
        assert(ext == target_extension());
        assert(ext.len() == 3);
        assert(ext[0] == name[i + 1]);
        assert(ext[1] == name[i + 2]);
        assert(ext[2] == name[i + 3]);
    } else if n > 4 && name[n - 4] == DOT && name[n - 3] == 0x6au8 && name[n - 2] == 0x70u8
        && name[n - 1] == 0x67u8 {
        match last_dot(name) {
            Some(i) => {
                assert(i == n - 4) by {
                    if i < n - 4 {
                        assert(name[n - 4] != DOT);
                    }
                }
                assert(name.subrange(i + 1, n) =~= target_extension());
            },
            None => {
                assert(name[n - 4] != DOT);
            },
        }
        assert(name != seq![DOT, DOT]);
    }
}

/// Whether the file name carries the target extension.
pub fn has_target_extension(file_name: &str) -> (b: bool)
    ensures
        b == is_candidate(file_name@),
{
    let bytes = file_name.as_bytes();
    proof {
        lemma_candidate_iff_suffix(bytes@);
    }
    let n = bytes.len();
    if n <= 4 {
        false
    } else {
        bytes[n - 4] == DOT && bytes[n - 3] == 0x6au8 && bytes[n - 2] == 0x70u8 && bytes[n - 1]
            == 0x67u8
    }
}

/// One entry of the enumeration: the path under which the file is reached and
/// the name of its last component.
#[derive(Debug, PartialEq, Eq)]
pub struct Entry {
    pub path: String,
    pub file_name: String,
}

/// What an [`Entry`] stands for.
pub struct EntryView {
    pub path: Seq<char>,
    pub file_name: Seq<char>,
}

impl View for Entry {
    type V = EntryView;

    open spec fn view(&self) -> EntryView {
        EntryView { path: self.path@, file_name: self.file_name@ }
    }
}

impl Clone for Entry {
    fn clone(&self) -> (copy: Self)
        ensures
            copy@ == self@,
    {
        Entry { path: self.path.clone(), file_name: self.file_name.clone() }
    }
}

/// A candidate together with the sequence index it was given.
#[derive(Debug, PartialEq, Eq)]
pub struct WorkUnit {
    pub sequence_index: u64,
    pub path: String,
    pub file_name: String,
}

/// What a [`WorkUnit`] stands for.
pub struct WorkUnitView {
    pub sequence_index: nat,
    pub path: Seq<char>,
    pub file_name: Seq<char>,
}

impl View for WorkUnit {
    type V = WorkUnitView;

    open spec fn view(&self) -> WorkUnitView {
        WorkUnitView {
            sequence_index: self.sequence_index as nat,
            path: self.path@,
            file_name: self.file_name@,
        }
    }
}

impl Clone for WorkUnit {
    fn clone(&self) -> (copy: Self)
        ensures
            copy@ == self@,
    {
        WorkUnit {
            sequence_index: self.sequence_index,
            path: self.path.clone(),
            file_name: self.file_name.clone(),
        }
    }
}

/// The views of a sequence of entries.
pub open spec fn entry_views(entries: Seq<Entry>) -> Seq<EntryView> {
    entries.map_values(|e: Entry| e@)
}

/// The views of a sequence of work units.
pub open spec fn unit_views(units: Seq<WorkUnit>) -> Seq<WorkUnitView> {
    units.map_values(|u: WorkUnit| u@)
}

/// The entries that are candidates, in the order of the enumeration.
pub open spec fn candidates(entries: Seq<EntryView>) -> Seq<EntryView> {
    entries.filter(|e: EntryView| is_candidate(e.file_name))
}

/// Numbers the given entries from one.
pub open spec fn numbered(entries: Seq<EntryView>) -> Seq<WorkUnitView> {
    Seq::new(
        entries.len(),
        |i: int|
            WorkUnitView {
                sequence_index: (i + 1) as nat,
                path: entries[i].path,
                file_name: entries[i].file_name,
            },
    )
}

/// The work units of an enumeration: its candidates, numbered from one.
pub open spec fn work_units(entries: Seq<EntryView>) -> Seq<WorkUnitView> {
    numbered(candidates(entries))
}

/// Selects the candidates among the enumerated entries and numbers them from
/// one in the order of the enumeration.
pub fn select_candidates(entries: &Vec<Entry>) -> (units: Vec<WorkUnit>)
    ensures
        unit_views(units@) == work_units(entry_views(entries@)),
        units.len() <= entries.len(),
        forall|i: int| 0 <= i < units.len() ==> (#[trigger] units[i]).sequence_index == i + 1,
        forall|i: int| 0 <= i < units.len() ==> is_candidate((#[trigger] units[i]).file_name@),
{
    let ghost all = entry_views(entries@);
    let ghost pred = |e: EntryView| is_candidate(e.file_name);
    let mut units: Vec<WorkUnit> = Vec::new();
    let mut i: usize = 0;
    proof {
        reveal(Seq::filter);
        assert(all.take(0).filter(pred) =~= Seq::<EntryView>::empty());
    }
    while i < entries.len()
        invariant
            i <= entries.len(),
            all == entry_views(entries@),
            pred == (|e: EntryView| is_candidate(e.file_name)),
            units.len() <= i,
            unit_views(units@) =~= numbered(all.take(i as int).filter(pred)),
            forall|k: int| 0 <= k < units.len() ==> is_candidate((#[trigger] units[k]).file_name@),
        decreases entries.len() - i,
    {
        let entry = &entries[i];
        let ghost before = all.take(i as int);
        let ghost after = all.take(i as int + 1);
        proof {
            reveal(Seq::filter);
            assert(after.drop_last() =~= before);
            assert(after.last() == entry@);
        }
        if has_target_extension(entry.file_name.as_str()) {
            let ghost earlier = units@;
            let unit = WorkUnit {
                sequence_index: units.len() as u64 + 1,
                path: entry.path.clone(),
                file_name: entry.file_name.clone(),
            };
            units.push(unit);
            proof {
                let kept = before.filter(pred);
                assert(after.filter(pred) == kept.push(entry@));
                assert(unit_views(earlier).len() == kept.len());
                assert forall|k: int| 0 <= k < units.len() implies unit_views(units@)[k]
                    == numbered(kept.push(entry@))[k] by {
                    if k < earlier.len() {
                        assert(units@[k] == earlier[k]);
                        assert(unit_views(earlier)[k] == numbered(kept)[k]);
                        assert(kept.push(entry@)[k] == kept[k]);
                    } else {
                        assert(units@[k] == unit);
                        assert(kept.push(entry@)[k] == entry@);
                    }
                }
                assert(unit_views(units@) =~= numbered(after.filter(pred)));
            }
        } else {
            proof {
                assert(after.filter(pred) == before.filter(pred));
            }
        }
        i += 1;
    }
    proof {
        assert(all.take(i as int) =~= all);
        assert forall|k: int| 0 <= k < units.len() implies (#[trigger] units[k]).sequence_index == k
            + 1 by {
            assert(unit_views(units@)[k] == units[k]@);
        }
    }
    units
}

/// Whether some work unit carries the index `k`.
pub open spec fn has_index(units: Seq<WorkUnitView>, k: int) -> bool {
    exists|i: int| 0 <= i < units.len() && (#[trigger] units[i]).sequence_index == k
}

/// The indices given to the work units of an enumeration are exactly the
/// numbers from one to the number of candidates, each once and in the order
/// of the enumeration.
pub proof fn lemma_indices_contiguous(entries: Seq<EntryView>)
    ensures
        work_units(entries).len() == candidates(entries).len(),
        forall|i: int|
            0 <= i < work_units(entries).len() ==> (#[trigger] work_units(
                entries,
            )[i]).sequence_index == i + 1,
        forall|k: int|
            1 <= k <= candidates(entries).len() <==> #[trigger] has_index(work_units(entries), k),
        forall|i: int, j: int|
            0 <= i < j < work_units(entries).len() ==> (#[trigger] work_units(
                entries,
            )[i]).sequence_index != (#[trigger] work_units(entries)[j]).sequence_index,
{
    let units = work_units(entries);
    assert forall|k: int| 1 <= k <= candidates(entries).len() implies #[trigger] has_index(
        units,
        k,
    ) by {
        assert(units[k - 1].sequence_index == k);
    }
}

/// Only candidates become work units, every candidate does, and each work
/// unit carries the path and file name of the entry it came from.
pub proof fn lemma_only_candidates_selected(entries: Seq<EntryView>)
    ensures
        forall|i: int|
            0 <= i < work_units(entries).len() ==> {
                let u = #[trigger] work_units(entries)[i];
                &&& is_candidate(u.file_name)
                &&& entries.contains(EntryView { path: u.path, file_name: u.file_name })
            },
        forall|k: int|
            0 <= k < entries.len() && is_candidate((#[trigger] entries[k]).file_name) ==> exists|
                i: int,
            |
                0 <= i < work_units(entries).len() && (#[trigger] work_units(entries)[i]).path
                    == entries[k].path && work_units(entries)[i].file_name == entries[k].file_name,
        forall|k: int|
            0 <= k < entries.len() && !is_candidate((#[trigger] entries[k]).file_name)
                ==> !candidates(entries).contains(entries[k]),
{
    let pred = |e: EntryView| is_candidate(e.file_name);
    let kept = candidates(entries);
    let units = work_units(entries);
    broadcast use Seq::lemma_filter_pred, Seq::lemma_filter_contains;
    assert forall|i: int| 0 <= i < units.len() implies {
        let u = #[trigger] units[i];
        &&& is_candidate(u.file_name)
        &&& entries.contains(EntryView { path: u.path, file_name: u.file_name })
    } by {
        assert(pred(kept[i]));
        lemma_filter_subset(entries, i);
        assert(EntryView { path: units[i].path, file_name: units[i].file_name } == kept[i]);
    }
    assert forall|k: int|
        0 <= k < entries.len() && is_candidate((#[trigger] entries[k]).file_name) implies exists|
        i: int,
    |
        0 <= i < units.len() && (#[trigger] units[i]).path == entries[k].path && units[i].file_name
            == entries[k].file_name by {
        assert(pred(entries[k]));
        assert(kept.contains(entries[k]));
        let i = choose|i: int| 0 <= i < kept.len() && kept[i] == entries[k];
        assert(units[i].path == entries[k].path);
    }
    assert forall|k: int|
        0 <= k < entries.len() && !is_candidate(
            (#[trigger] entries[k]).file_name,
        ) implies !kept.contains(entries[k]) by {
        if kept.contains(entries[k]) {
            let i = choose|i: int| 0 <= i < kept.len() && kept[i] == entries[k];
            assert(pred(kept[i]));
        }
    }
}

/// Every element of the candidates is an element of the enumeration.
proof fn lemma_filter_subset(entries: Seq<EntryView>, i: int)
    requires
        0 <= i < candidates(entries).len(),
    ensures
        entries.contains(candidates(entries)[i]),
    decreases entries.len(),
{
    reveal(Seq::filter);
    let pred = |e: EntryView| is_candidate(e.file_name);
    if entries.len() > 0 {
        let front = entries.drop_last();
        let kept_front = front.filter(pred);
        if i < kept_front.len() {
            lemma_filter_subset(front, i);
            let k = choose|k: int| 0 <= k < front.len() && front[k] == kept_front[i];
            assert(entries[k] == front[k]);
        } else {
            assert(candidates(entries)[i] == entries.last());
            assert(entries[entries.len() - 1] == entries.last());
        }
    }
}

/// Selection is a function of the enumeration: the same entries in the same
/// order give the same work units, index for index and path for path.
pub proof fn lemma_selection_deterministic(first: Seq<EntryView>, second: Seq<EntryView>)
    requires
        first =~= second,
    ensures
        work_units(first) == work_units(second),
{
}

} // verus!
