//! Discovery: from the listing of the base directory to the ordered list of
//! control files.

use crate::error::{EppError, EppErrorView, IoStage};
use crate::location::{
    control_file_path, control_path, core_index_of_name, lemma_control_path_core_index,
    lemma_control_path_tells_names_apart, name_core_index, path_core_index, paths_of,
    ControlLocation, CoreIndex, Location,
};
use crate::sorting::{
    lemma_stable_sort_len, lemma_stable_sort_permutes, lemma_stable_sort_sorted, sort_by_key,
    sorted_by_key, stable_sort, views,
};
use vstd::prelude::*;

verus! {

/// The base directory of the CPU topology.
pub fn cpu_base_dir() -> (base: &'static str)
    ensures
        base@ == "/sys/devices/system/cpu/"@,
{
    "/sys/devices/system/cpu/"
}

/// What the listing of the base directory says of one entry.
#[derive(Debug, Clone, PartialEq, Eq)]
pub struct DirEntry {
    /// The name of the entry.
    pub name: String,
    /// Whether the entry is a directory.
    pub is_dir: bool,
    /// Whether the control file exists below the entry.
    pub has_control_file: bool,
}

/// An entry as a mathematical value.
pub struct DirEntryView {
    pub name: Seq<char>,
    pub is_dir: bool,
    pub has_control_file: bool,
}

impl View for DirEntry {
    type V = DirEntryView;

    open spec fn view(&self) -> DirEntryView {
        DirEntryView {
            name: self.name@,
            is_dir: self.is_dir,
            has_control_file: self.has_control_file,
        }
    }
}

/// The listing of the base directory, or why it could not be listed.
pub open spec fn listing_view(listing: Result<Vec<DirEntry>, String>) -> Result<
    Seq<DirEntryView>,
    Seq<char>,
> {
    match listing {
        Ok(entries) => Ok(views(entries@)),
        Err(cause) => Err(cause@),
    }
}

/// The location that an entry stands for: the entry is a directory named
/// `cpu` and a core index, and the control file exists below it.
pub open spec fn candidate(base: Seq<char>, entry: DirEntryView) -> Option<Location> {
    match name_core_index(entry.name) {
        CoreIndex::Index(index) => if entry.is_dir && entry.has_control_file {
            Some(Location { index, path: control_path(base, entry.name) })
        } else {
            None
        },
        _ => None,
    }
}

/// The locations that the entries stand for, in the order of the listing.
pub open spec fn candidates(base: Seq<char>, entries: Seq<DirEntryView>) -> Seq<Location>
    decreases entries.len(),
{
    if entries.len() == 0 {
        Seq::<Location>::empty()
    } else {
        let earlier = candidates(base, entries.drop_last());
        match candidate(base, entries.last()) {
            Some(location) => earlier.push(location),
            None => earlier,
        }
    }
}

/// What discovery yields: the candidates by ascending path; `NotFound` where
/// there is none; an I/O error at the base directory where it could not be
/// listed.
pub open spec fn discovered(base: Seq<char>, listing: Result<Seq<DirEntryView>, Seq<char>>) -> Result<
    Seq<Location>,
    EppErrorView,
> {
    match listing {
        Err(cause) => Err(EppErrorView::IOError { stage: IoStage::List, path: base, cause }),
        Ok(entries) => if candidates(base, entries).len() == 0 {
            Err(EppErrorView::NotFound)
        } else {
            Ok(stable_sort::<ControlLocation>(candidates(base, entries)))
        },
    }
}

/// Whether a list of locations is one that discovery can yield: it is not
/// empty, it is ordered by path, and each path says the index of its core.
pub open spec fn well_formed(locations: Seq<Location>) -> bool {
    &&& locations.len() > 0
    &&& sorted_by_key::<ControlLocation>(locations)
    &&& forall|i: int|
        0 <= i < locations.len() ==> path_core_index(#[trigger] locations[i].path)
            == CoreIndex::Index(locations[i].index)
}

/// Every candidate's path says the index of its core.
pub proof fn lemma_candidates_say_their_index(base: Seq<char>, entries: Seq<DirEntryView>)
    ensures
        forall|i: int|
            0 <= i < candidates(base, entries).len() ==> path_core_index(
                #[trigger] candidates(base, entries)[i].path,
            ) == CoreIndex::Index(candidates(base, entries)[i].index),
    decreases entries.len(),
{
    if entries.len() > 0 {
        lemma_candidates_say_their_index(base, entries.drop_last());
        if candidate(base, entries.last()) is Some {
            lemma_control_path_core_index(base, entries.last().name);
        }
    }
}

/// What discovery yields is well formed.
pub proof fn lemma_discovered_is_well_formed(
    base: Seq<char>,
    listing: Result<Seq<DirEntryView>, Seq<char>>,
)
    ensures
        discovered(base, listing) matches Ok(locations) ==> well_formed(locations),
{
    if let Ok(entries) = listing {
        let found = candidates(base, entries);
        if found.len() > 0 {
            let sorted = stable_sort::<ControlLocation>(found);
            lemma_stable_sort_len::<ControlLocation>(found);
            lemma_stable_sort_sorted::<ControlLocation>(found);
            lemma_stable_sort_permutes::<ControlLocation>(found);
            lemma_candidates_say_their_index(base, entries);
            assert forall|i: int| 0 <= i < sorted.len() implies path_core_index(
                #[trigger] sorted[i].path,
            ) == CoreIndex::Index(sorted[i].index) by {
                broadcast use vstd::seq_lib::to_multiset_contains;

                assert(sorted.contains(sorted[i]));
                assert(sorted.to_multiset().count(sorted[i]) > 0);
                assert(found.contains(sorted[i]));
                let j = choose|j: int| 0 <= j < found.len() && found[j] == sorted[i];
                assert(found[j] == sorted[i]);
            }
        }
    }
}

/// Whether no two entries of a listing have the same name, as in the listing
/// of a directory.
pub open spec fn distinct_names(entries: Seq<DirEntryView>) -> bool {
    forall|i: int, j: int|
        0 <= i < j < entries.len() ==> (#[trigger] entries[i]).name != (#[trigger] entries[j]).name
}

/// Whether no two locations have the same path.
pub open spec fn distinct_paths(locations: Seq<Location>) -> bool {
    forall|i: int, j: int|
        0 <= i < j < locations.len() ==> (#[trigger] locations[i]).path != (
        #[trigger] locations[j]).path
}

/// Whether `location` is what one of the entries stands for.
pub open spec fn stands_for(base: Seq<char>, entries: Seq<DirEntryView>, location: Location) -> bool {
    exists|j: int| 0 <= j < entries.len() && candidate(base, #[trigger] entries[j]) == Some(location)
}

/// Entries of different names stand for locations of different paths.
pub proof fn lemma_candidates_of_distinct_names(base: Seq<char>, entries: Seq<DirEntryView>)
    requires
        distinct_names(entries),
    ensures
        distinct_paths(candidates(base, entries)),
        forall|i: int|
            0 <= i < candidates(base, entries).len() ==> stands_for(
                base,
                entries,
                #[trigger] candidates(base, entries)[i],
            ),
    decreases entries.len(),
{
    if entries.len() > 0 {
        let front = entries.drop_last();
        let last = entries.last();
        let earlier = candidates(base, front);
        let found = candidates(base, entries);
        assert forall|i: int, j: int| 0 <= i < j < front.len() implies (#[trigger] front[i]).name != (
        #[trigger] front[j]).name by {
            assert(front[i] == entries[i] && front[j] == entries[j]);
        }
        lemma_candidates_of_distinct_names(base, front);
        assert forall|i: int| 0 <= i < earlier.len() implies stands_for(
            base,
            entries,
            #[trigger] earlier[i],
        ) && (candidate(base, last) matches Some(l) ==> l.path != earlier[i].path) by {
            assert(stands_for(base, front, earlier[i]));
            let j = choose|j: int|
                0 <= j < front.len() && candidate(base, #[trigger] front[j]) == Some(earlier[i]);
            assert(front[j] == entries[j]);
            assert(candidate(base, entries[j]) == Some(earlier[i]));
            if candidate(base, last) is Some {
                assert(entries[j].name != entries[entries.len() - 1].name);
                if control_path(base, entries[j].name) == control_path(base, last.name) {
                    lemma_control_path_tells_names_apart(base, entries[j].name, last.name);
                }
            }
        }
        if let Some(location) = candidate(base, last) {
            assert(candidate(base, entries[entries.len() - 1]) == Some(location));
            assert(stands_for(base, entries, location));
            assert forall|i: int| 0 <= i < found.len() implies stands_for(
                base,
                entries,
                #[trigger] found[i],
            ) by {
                if i < earlier.len() {
                    assert(found[i] == earlier[i]);
                }
            }
            assert forall|i: int, j: int| 0 <= i < j < found.len() implies (#[trigger] found[i]).path
                != (#[trigger] found[j]).path by {
                assert(found[i] == earlier[i]);
                if j < earlier.len() {
                    assert(found[j] == earlier[j]);
                }
            }
        }
    }
}

/// The listing of a directory, in which no name stands twice, gives
/// locations of which no two have the same path.
pub proof fn lemma_discovered_paths_differ(
    base: Seq<char>,
    listing: Result<Seq<DirEntryView>, Seq<char>>,
)
    requires
        listing matches Ok(entries) ==> distinct_names(entries),
    ensures
        discovered(base, listing) matches Ok(locations) ==> distinct_paths(locations) && paths_of(
            locations,
        ).no_duplicates(),
{
    broadcast use vstd::seq_lib::to_multiset_contains;

    if let Ok(entries) = listing {
        let found = candidates(base, entries);
        if found.len() > 0 {
            let sorted = stable_sort::<ControlLocation>(found);
            lemma_candidates_of_distinct_names(base, entries);
            lemma_stable_sort_permutes::<ControlLocation>(found);
            assert(found.no_duplicates()) by {
                assert forall|i: int, j: int|
                    0 <= i < found.len() && 0 <= j < found.len() && i != j implies found[i]
                    != found[j] by {
                    if i < j {
                        assert(found[i].path != found[j].path);
                    } else {
                        assert(found[j].path != found[i].path);
                    }
                }
            }
            found.lemma_multiset_has_no_duplicates();
            sorted.lemma_multiset_has_no_duplicates_conv();
            assert forall|i: int, j: int| 0 <= i < j < sorted.len() implies (#[trigger] sorted[i]).path
                != (#[trigger] sorted[j]).path by {
                assert(sorted[i] != sorted[j]);
                assert(sorted.contains(sorted[i]) && sorted.contains(sorted[j]));
                assert(sorted.to_multiset().count(sorted[i]) > 0);
                assert(sorted.to_multiset().count(sorted[j]) > 0);
                assert(found.contains(sorted[i]) && found.contains(sorted[j]));
                let a = choose|a: int| 0 <= a < found.len() && found[a] == sorted[i];
                let b = choose|b: int| 0 <= b < found.len() && found[b] == sorted[j];
                assert(a != b);
                if a < b {
                    assert(found[a].path != found[b].path);
                } else {
                    assert(found[b].path != found[a].path);
                }
            }
            let paths = paths_of(sorted);
            assert forall|i: int, j: int|
                0 <= i < paths.len() && 0 <= j < paths.len() && i != j implies paths[i]
                != paths[j] by {
                if i < j {
                    assert(sorted[i].path != sorted[j].path);
                } else {
                    assert(sorted[j].path != sorted[i].path);
                }
            }
        }
    }
}

/// The control files of the host's cores, by ascending path.
#[derive(Debug, Clone, PartialEq, Eq)]
pub struct AmdEppMgr {
    pub locations: Vec<ControlLocation>,
}

impl View for AmdEppMgr {
    type V = Seq<Location>;

    open spec fn view(&self) -> Seq<Location> {
        views(self.locations@)
    }
}

impl AmdEppMgr {
    /// Finds the control files among the entries of the base directory.
    ///
    /// An entry counts where it is a directory whose name is `cpu` followed
    /// by a core index and the control file exists below it. The locations
    /// come out by ascending path, which is not the order of the indices:
    /// `cpu10` comes before `cpu2`. Where no name stands twice in the listing,
    /// no path stands twice among the locations.
    pub fn new(base: &str, listing: Result<Vec<DirEntry>, String>) -> (found: Result<
        AmdEppMgr,
        EppError,
    >)
        ensures
            match found {
                Ok(mgr) => discovered(base@, listing_view(listing)) == Ok::<
                    Seq<Location>,
                    EppErrorView,
                >(mgr@) && well_formed(mgr@),
                Err(e) => discovered(base@, listing_view(listing)) == Err::<
                    Seq<Location>,
                    EppErrorView,
                >(e@),
            },
            (found is Ok && listing is Ok && distinct_names(views(listing->Ok_0@)))
                ==> distinct_paths(found->Ok_0@) && paths_of(found->Ok_0@).no_duplicates(),
    {
        let entries: Vec<DirEntry> = match listing {
            Ok(entries) => entries,
            Err(cause) => {
                return Err(
                    EppError::IOError { stage: IoStage::List, path: String::from_str(base), cause },
                );
            },
        };
        let mut locations: Vec<ControlLocation> = Vec::new();
        let mut i: usize = 0;
        proof {
            assert(views(entries@).take(0) =~= Seq::<DirEntryView>::empty());
            assert(views(locations@) =~= Seq::<Location>::empty());
        }
        while i < entries.len()
            invariant
                i <= entries@.len(),
                views(locations@) == candidates(base@, views(entries@).take(i as int)),
            decreases entries.len() - i,
        {
            let entry: &DirEntry = &entries[i];
            let ghost before: Seq<Location> = views(locations@);
            proof {
                assert(views(entries@).take(i as int + 1).drop_last() =~= views(entries@).take(
                    i as int,
                ));
                assert(views(entries@).take(i as int + 1).last() == entry@);
            }
            if entry.is_dir {
                match core_index_of_name(entry.name.as_str()) {
                    CoreIndex::Index(index) => {
                        if entry.has_control_file {
                            let path: String = control_file_path(base, entry.name.as_str());
                            let location: ControlLocation = ControlLocation { index, path };
                            locations.push(location);
                            proof {
                                assert(views(locations@) =~= before.push(location@));
                            }
                        }
                    },
                    _ => {},
                }
            }
            i = i + 1;
        }
        proof {
            assert(views(entries@).take(i as int) =~= views(entries@));
            lemma_discovered_is_well_formed(base@, listing_view(listing));
            if distinct_names(views(entries@)) {
                lemma_discovered_paths_differ(base@, listing_view(listing));
            }
        }
        if locations.len() == 0 {
            return Err(EppError::NotFound);
        }
        let locations: Vec<ControlLocation> = sort_by_key(locations);
        Ok(AmdEppMgr { locations })
    }
}

} // verus!
