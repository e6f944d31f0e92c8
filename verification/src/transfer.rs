//! Moving files without losing any: replacing one file, and merging an overlay into a folder.
use crate::sorted::SortedMap;
use crate::workspace::workspace_romfs;
use vstd::prelude::*;

verus! {

// ── Replacing one file ───────────────────────────────────────────────────────

/// What is known of a file.
#[derive(Clone, Copy, Debug, PartialEq, Eq, Structural)]
pub struct FileFacts {
    pub is_file: bool,
    pub is_symlink: bool,
    pub len: u64,
}

/// The file is a regular one.
pub open spec fn is_regular(facts: FileFacts) -> bool {
    facts.is_file && !facts.is_symlink
}

/// Why a file is not replaced.
#[derive(Clone, Copy, Debug, PartialEq, Eq, Structural)]
pub enum ReplaceRefusal {
    SourceNotRegular,
    DestinationNotRegular,
}

/// How a replacement starts.
#[derive(Clone, Copy, Debug, PartialEq, Eq, Structural)]
pub enum ReplaceStart {
    /// Source and destination are one file: there is nothing to do.
    AlreadyThere,
    /// The steps of a `Replacement` are to be taken.
    Replace,
}

/// Decides how a replacement starts. `destination` is what stands there, if anything does, and
/// `same_file` says whether both are one file.
pub fn start_replacement(
    source: FileFacts,
    destination: Option<FileFacts>,
    same_file: bool,
) -> (start: Result<ReplaceStart, ReplaceRefusal>)
    ensures
        start == if !is_regular(source) {
            Err(ReplaceRefusal::SourceNotRegular)
        } else if destination is Some && !is_regular(destination->Some_0) {
            Err(ReplaceRefusal::DestinationNotRegular)
        } else if destination is Some && same_file {
            Ok(ReplaceStart::AlreadyThere)
        } else {
            Ok(ReplaceStart::Replace)
        },
{
    if source.is_symlink || !source.is_file {
        return Err(ReplaceRefusal::SourceNotRegular);
    }
    match destination {
        Some(facts) => {
            if facts.is_symlink || !facts.is_file {
                Err(ReplaceRefusal::DestinationNotRegular)
            } else if same_file {
                Ok(ReplaceStart::AlreadyThere)
            } else {
                Ok(ReplaceStart::Replace)
            }
        },
        None => Ok(ReplaceStart::Replace),
    }
}

/// The name of the copy that is made next to a file before it replaces it.
pub fn staging_name(name: &str) -> (staging: String)
    ensures
        staging@ == "."@ + name@ + ".visionary-next"@,
{
    let mut staging = ".".to_owned();
    staging.append(name);
    staging.append(".visionary-next");
    staging
}

/// The name under which the replaced file is kept until the new one is in place.
pub fn previous_name(name: &str) -> (previous: String)
    ensures
        previous@ == "."@ + name@ + ".visionary-previous"@,
{
    let mut previous = ".".to_owned();
    previous.append(name);
    previous.append(".visionary-previous");
    previous
}

/// The step that failed.
#[derive(Clone, Copy, Debug, PartialEq, Eq, Structural)]
pub enum ReplaceFailure {
    RemovingStaleStaging,
    Copying,
    RemovingStaleBackup,
    MovingAside,
    InstallingReplacement,
    Installing,
}

/// What is to be done next.
#[derive(Clone, Copy, Debug, PartialEq, Eq, Structural)]
pub enum ReplacePhase {
    /// Look whether a staging file is left over.
    ProbeStaging,
    /// Remove it.
    RemoveStaging,
    /// Copy the source to the staging file.
    CopySource,
    /// Look whether there is a file at the destination.
    ProbeDestination,
    /// Look whether a backup is left over.
    ProbePrevious,
    /// Remove it.
    RemovePrevious,
    /// Rename the destination to the backup.
    MoveAside,
    /// Rename the staging file to the destination, where a file stood.
    Install,
    /// Rename the backup to the destination again.
    RestorePrevious,
    /// Remove the staging file after a failure.
    DropStaging(ReplaceFailure),
    /// Remove the backup.
    DropPrevious,
    /// Rename the staging file to the destination, where no file stood.
    InstallFresh,
    Done,
    Failed(ReplaceFailure),
}

/// What follows a step. `ok` is what a look has found, or whether the step succeeded.
pub open spec fn after_step(phase: ReplacePhase, ok: bool) -> ReplacePhase {
    match phase {
        ReplacePhase::ProbeStaging => if ok {
            ReplacePhase::RemoveStaging
        } else {
            ReplacePhase::CopySource
        },
        ReplacePhase::RemoveStaging => if ok {
            ReplacePhase::CopySource
        } else {
            ReplacePhase::Failed(ReplaceFailure::RemovingStaleStaging)
        },
        ReplacePhase::CopySource => if ok {
            ReplacePhase::ProbeDestination
        } else {
            ReplacePhase::Failed(ReplaceFailure::Copying)
        },
        ReplacePhase::ProbeDestination => if ok {
            ReplacePhase::ProbePrevious
        } else {
            ReplacePhase::InstallFresh
        },
        ReplacePhase::ProbePrevious => if ok {
            ReplacePhase::RemovePrevious
        } else {
            ReplacePhase::MoveAside
        },
        ReplacePhase::RemovePrevious => if ok {
            ReplacePhase::MoveAside
        } else {
            ReplacePhase::Failed(ReplaceFailure::RemovingStaleBackup)
        },
        ReplacePhase::MoveAside => if ok {
            ReplacePhase::Install
        } else {
            ReplacePhase::Failed(ReplaceFailure::MovingAside)
        },
        ReplacePhase::Install => if ok {
            ReplacePhase::DropPrevious
        } else {
            ReplacePhase::RestorePrevious
        },
        ReplacePhase::RestorePrevious => ReplacePhase::DropStaging(
            ReplaceFailure::InstallingReplacement,
        ),
        ReplacePhase::DropStaging(failure) => ReplacePhase::Failed(failure),
        ReplacePhase::DropPrevious => ReplacePhase::Done,
        ReplacePhase::InstallFresh => if ok {
            ReplacePhase::Done
        } else {
            ReplacePhase::DropStaging(ReplaceFailure::Installing)
        },
        ReplacePhase::Done => ReplacePhase::Done,
        ReplacePhase::Failed(failure) => ReplacePhase::Failed(failure),
    }
}

/// A replacement in progress.
#[derive(Debug)]
pub struct Replacement {
    pub phase: ReplacePhase,
}

impl Replacement {
    /// A replacement that nothing has been done for yet.
    pub fn new() -> (replacement: Self)
        ensures
            replacement.phase == ReplacePhase::ProbeStaging,
    {
        Replacement { phase: ReplacePhase::ProbeStaging }
    }

    /// Takes in how the step of the current phase went.
    pub fn advance(&mut self, ok: bool)
        ensures
            final(self).phase == after_step(old(self).phase, ok),
    {
        self.phase = match self.phase {
            ReplacePhase::ProbeStaging => if ok {
                ReplacePhase::RemoveStaging
            } else {
                ReplacePhase::CopySource
            },
            ReplacePhase::RemoveStaging => if ok {
                ReplacePhase::CopySource
            } else {
                ReplacePhase::Failed(ReplaceFailure::RemovingStaleStaging)
            },
            ReplacePhase::CopySource => if ok {
                ReplacePhase::ProbeDestination
            } else {
                ReplacePhase::Failed(ReplaceFailure::Copying)
            },
            ReplacePhase::ProbeDestination => if ok {
                ReplacePhase::ProbePrevious
            } else {
                ReplacePhase::InstallFresh
            },
            ReplacePhase::ProbePrevious => if ok {
                ReplacePhase::RemovePrevious
            } else {
                ReplacePhase::MoveAside
            },
            ReplacePhase::RemovePrevious => if ok {
                ReplacePhase::MoveAside
            } else {
                ReplacePhase::Failed(ReplaceFailure::RemovingStaleBackup)
            },
            ReplacePhase::MoveAside => if ok {
                ReplacePhase::Install
            } else {
                ReplacePhase::Failed(ReplaceFailure::MovingAside)
            },
            ReplacePhase::Install => if ok {
                ReplacePhase::DropPrevious
            } else {
                ReplacePhase::RestorePrevious
            },
            ReplacePhase::RestorePrevious => ReplacePhase::DropStaging(
                ReplaceFailure::InstallingReplacement,
            ),
            ReplacePhase::DropStaging(failure) => ReplacePhase::Failed(failure),
            ReplacePhase::DropPrevious => ReplacePhase::Done,
            ReplacePhase::InstallFresh => if ok {
                ReplacePhase::Done
            } else {
                ReplacePhase::DropStaging(ReplaceFailure::Installing)
            },
            ReplacePhase::Done => ReplacePhase::Done,
            ReplacePhase::Failed(failure) => ReplacePhase::Failed(failure),
        };
    }
}

/// What a file on the disk holds.
pub enum Content {
    /// What stood at the destination before.
    Before,
    /// All of the source.
    Whole,
    /// Anything else, such as a part of the source.
    Else,
}

/// The three files that a replacement touches.
pub struct Disk {
    pub destination: Option<Content>,
    pub staging: Option<Content>,
    pub previous: Option<Content>,
}

/// What a step can do to the disk. A look changes nothing and finds what is there. A rename or
/// a removal that fails changes nothing; a copy that fails leaves anything.
pub open spec fn step_effect(phase: ReplacePhase, ok: bool, disk: Disk, next: Disk) -> bool {
    match phase {
        ReplacePhase::ProbeStaging => ok == (disk.staging is Some) && next == disk,
        ReplacePhase::RemoveStaging => next == (if ok {
            Disk { staging: None, ..disk }
        } else {
            disk
        }),
        ReplacePhase::CopySource => next == (Disk { staging: next.staging, ..disk }) && (ok
            ==> next.staging == Some(Content::Whole)),
        ReplacePhase::ProbeDestination => ok == (disk.destination is Some) && next == disk,
        ReplacePhase::ProbePrevious => ok == (disk.previous is Some) && next == disk,
        ReplacePhase::RemovePrevious => next == (if ok {
            Disk { previous: None, ..disk }
        } else {
            disk
        }),
        ReplacePhase::MoveAside => next == (if ok {
            Disk { previous: disk.destination, destination: None, ..disk }
        } else {
            disk
        }),
        ReplacePhase::Install | ReplacePhase::InstallFresh => next == (if ok {
            Disk { destination: disk.staging, staging: None, ..disk }
        } else {
            disk
        }),
        ReplacePhase::RestorePrevious => next == (if ok {
            Disk { destination: disk.previous, previous: None, ..disk }
        } else {
            disk
        }),
        ReplacePhase::DropStaging(_) => next == (if ok {
            Disk { staging: None, ..disk }
        } else {
            disk
        }),
        ReplacePhase::DropPrevious => next == (if ok {
            Disk { previous: None, ..disk }
        } else {
            disk
        }),
        ReplacePhase::Done | ReplacePhase::Failed(_) => next == disk,
    }
}

/// Where the files stand in each phase. `start` is what stood at the destination.
pub open spec fn in_place(start: Option<Content>, phase: ReplacePhase, disk: Disk) -> bool {
    match phase {
        ReplacePhase::ProbeStaging
        | ReplacePhase::RemoveStaging
        | ReplacePhase::CopySource => disk.destination == start,
        ReplacePhase::ProbeDestination => disk.destination == start && disk.staging == Some(
            Content::Whole,
        ),
        ReplacePhase::ProbePrevious
        | ReplacePhase::RemovePrevious
        | ReplacePhase::MoveAside => start is Some && disk.destination == start && disk.staging
            == Some(Content::Whole),
        ReplacePhase::Install => start is Some && disk.destination is None && disk.previous == start
            && disk.staging == Some(Content::Whole),
        ReplacePhase::RestorePrevious => start is Some && disk.destination is None && disk.previous
            == start,
        ReplacePhase::InstallFresh => start is None && disk.destination is None && disk.staging
            == Some(Content::Whole),
        ReplacePhase::DropPrevious | ReplacePhase::Done => disk.destination == Some(
            Content::Whole,
        ),
        ReplacePhase::DropStaging(failure) | ReplacePhase::Failed(failure) => disk.destination
            == start || (failure == ReplaceFailure::InstallingReplacement && disk.destination is None
            && disk.previous == start),
    }
}

/// Every step keeps the files in place, however it goes.
pub proof fn law_every_step_keeps_files_in_place(
    start: Option<Content>,
    phase: ReplacePhase,
    ok: bool,
    disk: Disk,
    next: Disk,
)
    requires
        in_place(start, phase, disk),
        step_effect(phase, ok, disk, next),
    ensures
        in_place(start, after_step(phase, ok), next),
{
}

/// At no time does the destination hold a part of the source, and what stood there is never
/// lost: it is at the destination or in the backup until all of the source has taken its place.
pub proof fn law_destination_is_never_half_written(
    start: Option<Content>,
    phase: ReplacePhase,
    disk: Disk,
)
    requires
        in_place(start, phase, disk),
        start is None || start == Some(Content::Before),
    ensures
        disk.destination is None || disk.destination == Some(Content::Before) || disk.destination
            == Some(Content::Whole),
        disk.destination == start || disk.previous == start || disk.destination == Some(
            Content::Whole,
        ),
        phase == ReplacePhase::Done ==> disk.destination == Some(Content::Whole),
{
}

// ── Merging an overlay ───────────────────────────────────────────────────────

/// What an entry of a folder is.
#[derive(Clone, Copy, Debug, PartialEq, Eq, Structural)]
pub struct EntryKind {
    pub is_symlink: bool,
    pub is_dir: bool,
    pub is_file: bool,
}

/// What becomes of an entry of an overlay.
#[derive(Clone, Copy, Debug, PartialEq, Eq, Structural)]
pub enum EntryFate {
    /// It is no part of the project.
    Skip,
    /// Its own entries are looked at.
    Descend,
    /// It is copied.
    Copy,
    /// Something stands at its destination, and stays.
    Conflict,
}

/// Links are never followed, folders are entered, and a file is copied unless something stands
/// at its destination.
pub open spec fn fate_of(kind: EntryKind, taken: bool) -> EntryFate {
    if kind.is_symlink {
        EntryFate::Skip
    } else if kind.is_dir {
        EntryFate::Descend
    } else if !kind.is_file {
        EntryFate::Skip
    } else if taken {
        EntryFate::Conflict
    } else {
        EntryFate::Copy
    }
}

/// Decides what becomes of an entry.
pub fn entry_fate(kind: EntryKind, taken: bool) -> (fate: EntryFate)
    ensures
        fate == fate_of(kind, taken),
{
    if kind.is_symlink {
        EntryFate::Skip
    } else if kind.is_dir {
        EntryFate::Descend
    } else if !kind.is_file {
        EntryFate::Skip
    } else if taken {
        EntryFate::Conflict
    } else {
        EntryFate::Copy
    }
}

/// A walk through an overlay. Paths are relative to it.
pub struct OverlayWalk {
    pending: Vec<String>,
    copied: usize,
    skipped: SortedMap<String, ()>,
}

#[verifier::ext_equal]
pub struct WalkView {
    /// The folders still to look at; the last one comes first.
    pub pending: Seq<Seq<char>>,
    /// How many files have been copied.
    pub copied: nat,
    /// The files whose destinations were taken.
    pub skipped: Set<Seq<char>>,
}

impl View for OverlayWalk {
    type V = WalkView;

    closed spec fn view(&self) -> WalkView {
        WalkView {
            pending: crate::text::texts(self.pending@),
            copied: self.copied as nat,
            skipped: self.skipped@.dom(),
        }
    }
}

/// A walk that has copied one more file.
pub open spec fn one_more(w: WalkView) -> WalkView {
    WalkView { copied: w.copied + 1, ..w }
}

/// A walk that starts at the overlay itself.
pub open spec fn at_start() -> WalkView {
    WalkView { pending: seq![Seq::empty()], copied: 0, skipped: Set::empty() }
}

/// A walk after one more entry.
pub open spec fn visited(w: WalkView, path: Seq<char>, kind: EntryKind, taken: bool) -> WalkView {
    match fate_of(kind, taken) {
        EntryFate::Descend => WalkView { pending: w.pending.push(path), ..w },
        EntryFate::Conflict => WalkView { skipped: w.skipped.insert(path), ..w },
        _ => w,
    }
}

impl OverlayWalk {
    pub closed spec fn wf(&self) -> bool {
        self.skipped.wf()
    }

    /// A walk that starts at the overlay itself.
    pub fn new() -> (walk: Self)
        ensures
            walk.wf(),
            walk@ == at_start(),
    {
        let mut pending: Vec<String> = Vec::new();
        pending.push(String::new());
        let walk = OverlayWalk { pending, copied: 0, skipped: SortedMap::new() };
        assert(walk@.pending =~= seq![Seq::empty()]);
        assert(walk@.skipped =~= Set::empty());
        walk
    }

    /// The folder to look at next.
    pub fn next_folder(&mut self) -> (folder: Option<String>)
        requires
            old(self).wf(),
        ensures
            final(self).wf(),
            match folder {
                Some(path) => old(self)@.pending.len() > 0 && path@ == old(self)@.pending.last()
                    && final(self)@ == (WalkView {
                    pending: old(self)@.pending.drop_last(),
                    ..old(self)@
                }),
                None => old(self)@.pending.len() == 0 && final(self)@ == old(self)@,
            },
    {
        let ghost before = self@;
        let folder = self.pending.pop();
        proof {
            if folder is Some {
                assert(self@.pending =~= before.pending.drop_last());
            }
        }
        folder
    }

    /// Takes in an entry, and says what becomes of it.
    pub fn visit(&mut self, path: &str, kind: EntryKind, taken: bool) -> (fate: EntryFate)
        requires
            old(self).wf(),
        ensures
            final(self).wf(),
            fate == fate_of(kind, taken),
            final(self)@ == visited(old(self)@, path@, kind, taken),
    {
        let ghost before = self@;
        let fate = entry_fate(kind, taken);
        match fate {
            EntryFate::Descend => {
                self.pending.push(path.to_owned());
                assert(self@.pending =~= before.pending.push(path@));
            },
            EntryFate::Conflict => {
                self.skipped.insert(path.to_owned(), ());
                assert(self@.skipped =~= before.skipped.insert(path@));
            },
            _ => {},
        }
        assert(self@ =~= visited(before, path@, kind, taken));
        fate
    }

    /// A file has been copied.
    pub fn file_copied(&mut self)
        requires
            old(self).wf(),
            old(self)@.copied < usize::MAX,
        ensures
            final(self).wf(),
            final(self)@ == one_more(old(self)@),
    {
        self.copied = self.copied + 1;
    }

    /// How many files were copied, and the ones that were skipped, in order.
    pub fn finish(&self) -> (result: (usize, Vec<String>))
        requires
            self.wf(),
        ensures
            result.0 == self@.copied,
            crate::sorted::ascending::<String>(crate::text::texts(result.1@)),
            crate::text::texts(result.1@).to_set() == self@.skipped,
    {
        let mut list: Vec<String> = Vec::new();
        let mut i: usize = 0;
        while i < self.skipped.len()
            invariant
                self.wf(),
                i <= self.skipped.key_list().len(),
                crate::text::texts(list@) == self.skipped.key_list().take(i as int),
            decreases self.skipped.key_list().len() - i,
        {
            let ghost before = crate::text::texts(list@);
            let name = self.skipped.key_at(i).clone();
            list.push(name);
            assert(crate::text::texts(list@) =~= before.push(name@));
            assert(before.push(name@) =~= self.skipped.key_list().take(i + 1));
            i += 1;
        }
        proof {
            assert(crate::text::texts(list@) =~= self.skipped.key_list());
            self.skipped.lemma_lists();
        }
        (self.copied, list)
    }
}

/// A symbolic link is neither copied nor entered nor reported, wherever it points.
pub proof fn law_links_stay_out(w: WalkView, path: Seq<char>, kind: EntryKind, taken: bool)
    requires
        kind.is_symlink,
    ensures
        fate_of(kind, taken) == EntryFate::Skip,
        visited(w, path, kind, taken) == w,
{
}

/// What stands at a destination is never overwritten, and the conflict is reported.
pub proof fn law_taken_destinations_win(w: WalkView, path: Seq<char>, kind: EntryKind)
    ensures
        fate_of(kind, true) != EntryFate::Copy,
        fate_of(kind, false) == EntryFate::Copy ==> visited(w, path, kind, true).skipped.contains(
            path,
        ),
{
}

/// A file goes with the project, whether it is copied or its destination is taken, exactly where
/// an overlay is said to hold files because of it.
pub proof fn law_overlay_files_are_those_exported(kind: EntryKind, taken: bool)
    ensures
        (fate_of(kind, taken) == EntryFate::Copy || fate_of(kind, taken) == EntryFate::Conflict)
            == (fate_of(kind, false) == EntryFate::Copy),
{
}

/// An entry of a folder of an overlay, with its path relative to the overlay.
#[derive(Debug)]
pub struct OverlayEntry {
    pub path: String,
    pub kind: EntryKind,
}

/// Some entry is a file that goes with the project.
pub open spec fn holds_file(entries: Seq<OverlayEntry>) -> bool {
    exists|i: int|
        0 <= i < entries.len() && fate_of((#[trigger] entries[i]).kind, false) == EntryFate::Copy
}

/// A walk after all the entries of a folder.
pub open spec fn after_entries(w: WalkView, entries: Seq<OverlayEntry>) -> WalkView
    decreases entries.len(),
{
    if entries.len() == 0 {
        w
    } else {
        visited(
            after_entries(w, entries.drop_last()),
            entries.last().path@,
            entries.last().kind,
            false,
        )
    }
}

/// The position of the first file that goes with the project, from `i` on; behind the last entry
/// if there is none.
pub open spec fn first_file(entries: Seq<OverlayEntry>, i: int) -> int
    decreases entries.len() - i,
{
    if i < 0 || i >= entries.len() {
        entries.len() as int
    } else if fate_of(entries[i].kind, false) == EntryFate::Copy {
        i
    } else {
        first_file(entries, i + 1)
    }
}

/// Whether a folder of an overlay holds a file that goes with the project. The folders up to that
/// file, or all of them, are still to be looked at.
pub fn workspace_romfs_has_files(walk: &mut OverlayWalk, entries: &Vec<OverlayEntry>) -> (b: bool)
    requires
        old(walk).wf(),
    ensures
        final(walk).wf(),
        b == holds_file(entries@),
        b == (first_file(entries@, 0) < entries@.len()),
        final(walk)@ == after_entries(old(walk)@, entries@.take(first_file(entries@, 0))),
{
    let ghost start = walk@;
    let mut i: usize = 0;
    assert(entries@.take(0).len() == 0);
    while i < entries.len()
        invariant
            i <= entries@.len(),
            walk.wf(),
            start == old(walk)@,
            walk@ == after_entries(start, entries@.take(i as int)),
            first_file(entries@, 0) == first_file(entries@, i as int),
            forall|j: int|
                0 <= j < i ==> fate_of((#[trigger] entries@[j]).kind, false) != EntryFate::Copy,
        decreases entries@.len() - i,
    {
        assert(entries@.take(i + 1).drop_last() =~= entries@.take(i as int));
        let entry = &entries[i];
        let fate = walk.visit(entry.path.as_str(), entry.kind, false);
        match fate {
            EntryFate::Copy => {
                assert(fate_of(entries@[i as int].kind, false) == EntryFate::Copy);
                assert(first_file(entries@, i as int) == i);
                return true;
            },
            _ => {},
        }
        i += 1;
    }
    assert(entries@.take(i as int) =~= entries@);
    false
}

// ── A whole merge ────────────────────────────────────────────────────────────

/// A merge: the walk, and the destinations at which something stands.
#[verifier::ext_equal]
pub struct MergeView {
    pub walk: WalkView,
    pub taken: Set<Seq<char>>,
}

/// A merge after one more entry. A file that is copied stands at its destination from there on.
pub open spec fn merged_entry(m: MergeView, entry: OverlayEntry) -> MergeView {
    let taken = m.taken.contains(entry.path@);
    let walk = visited(m.walk, entry.path@, entry.kind, taken);
    if fate_of(entry.kind, taken) == EntryFate::Copy {
        MergeView { walk: one_more(walk), taken: m.taken.insert(entry.path@) }
    } else {
        MergeView { walk, taken: m.taken }
    }
}

/// A merge after all the entries of a folder.
pub open spec fn merged_folder(m: MergeView, entries: Seq<OverlayEntry>) -> MergeView
    decreases entries.len(),
{
    if entries.len() == 0 {
        m
    } else {
        merged_entry(merged_folder(m, entries.drop_last()), entries.last())
    }
}

/// A merge after so many more folders. `tree` gives the entries of each folder.
pub open spec fn merged(
    m: MergeView,
    tree: spec_fn(Seq<char>) -> Seq<OverlayEntry>,
    folders: nat,
) -> MergeView
    decreases folders,
{
    if folders == 0 || m.walk.pending.len() == 0 {
        m
    } else {
        let rest = WalkView { pending: m.walk.pending.drop_last(), ..m.walk };
        merged(
            merged_folder(MergeView { walk: rest, ..m }, tree(m.walk.pending.last())),
            tree,
            (folders - 1) as nat,
        )
    }
}

/// The files among the entries of a folder.
pub open spec fn files_in(entries: Seq<OverlayEntry>) -> Seq<Seq<char>>
    decreases entries.len(),
{
    if entries.len() == 0 {
        Seq::empty()
    } else if fate_of(entries.last().kind, false) == EntryFate::Copy {
        files_in(entries.drop_last()).push(entries.last().path@)
    } else {
        files_in(entries.drop_last())
    }
}

/// What is still to be looked at after the entries of a folder.
pub open spec fn entered(pending: Seq<Seq<char>>, entries: Seq<OverlayEntry>) -> Seq<Seq<char>>
    decreases entries.len(),
{
    if entries.len() == 0 {
        pending
    } else if fate_of(entries.last().kind, false) == EntryFate::Descend {
        entered(pending, entries.drop_last()).push(entries.last().path@)
    } else {
        entered(pending, entries.drop_last())
    }
}

/// The files of so many more folders, in the order in which a walk comes to them.
pub open spec fn files_below(
    pending: Seq<Seq<char>>,
    tree: spec_fn(Seq<char>) -> Seq<OverlayEntry>,
    folders: nat,
) -> Seq<Seq<char>>
    decreases folders,
{
    if folders == 0 || pending.len() == 0 {
        Seq::empty()
    } else {
        let entries = tree(pending.last());
        files_in(entries) + files_below(
            entered(pending.drop_last(), entries),
            tree,
            (folders - 1) as nat,
        )
    }
}

/// The folders that are left after so many more.
pub open spec fn pending_after(
    pending: Seq<Seq<char>>,
    tree: spec_fn(Seq<char>) -> Seq<OverlayEntry>,
    folders: nat,
) -> Seq<Seq<char>>
    decreases folders,
{
    if folders == 0 || pending.len() == 0 {
        pending
    } else {
        pending_after(
            entered(pending.drop_last(), tree(pending.last())),
            tree,
            (folders - 1) as nat,
        )
    }
}

/// `after` is `m` once these files have come by: new ones are copied, the others are reported.
pub open spec fn took_in(m: MergeView, after: MergeView, files: Seq<Seq<char>>) -> bool {
    &&& after.taken == m.taken.union(files.to_set())
    &&& files.no_duplicates() ==> {
        &&& after.walk.skipped == m.walk.skipped.union(files.to_set().intersect(m.taken))
        &&& after.walk.copied == m.walk.copied + files.to_set().difference(m.taken).len()
    }
}

proof fn lemma_folder_merged(m: MergeView, entries: Seq<OverlayEntry>)
    ensures
        merged_folder(m, entries).walk.pending == entered(m.walk.pending, entries),
        took_in(m, merged_folder(m, entries), files_in(entries)),
    decreases entries.len(),
{
    let files = files_in(entries);
    if entries.len() == 0 {
        assert(m.taken.union(files.to_set()) =~= m.taken);
        assert(m.walk.skipped.union(files.to_set().intersect(m.taken)) =~= m.walk.skipped);
        assert(files.to_set().difference(m.taken) =~= Set::empty());
    } else {
        let before = files_in(entries.drop_last());
        let path = entries.last().path@;
        let mid = merged_folder(m, entries.drop_last());
        let after = merged_folder(m, entries);
        lemma_folder_merged(m, entries.drop_last());
        if fate_of(entries.last().kind, false) == EntryFate::Copy {
            assert(files.drop_last() =~= before);
            assert(files =~= before.push(path));
            lemma_set_of_push(before, path);
            assert(after.taken =~= m.taken.union(files.to_set()));
            if files.no_duplicates() {
                assert(!before.contains(path)) by {
                    if before.contains(path) {
                        let k = before.index_of(path);
                        assert(files[k] == path && files[files.len() - 1] == path);
                    }
                }
                assert forall|a: int, b: int|
                    0 <= a < before.len() && 0 <= b < before.len() && a != b implies before[a]
                    != before[b] by {
                    assert(files[a] == before[a] && files[b] == before[b]);
                }
                assert(before.no_duplicates());
                assert(after.walk.skipped =~= m.walk.skipped.union(
                    files.to_set().intersect(m.taken),
                ));
                let fresh = before.to_set().difference(m.taken);
                vstd::seq_lib::seq_to_set_is_finite(before);
                if m.taken.contains(path) {
                    assert(files.to_set().difference(m.taken) =~= fresh);
                } else {
                    assert(files.to_set().difference(m.taken) =~= fresh.insert(path));
                }
            }
        }
    }
}

proof fn lemma_set_of_push(list: Seq<Seq<char>>, item: Seq<char>)
    ensures
        list.push(item).to_set() == list.to_set().insert(item),
{
    let all = list.push(item);
    assert forall|x: Seq<char>| all.to_set().contains(x) == #[trigger] list.to_set().insert(
        item,
    ).contains(x) by {
        if all.contains(x) && x != item {
            let k = all.index_of(x);
            assert(list[k] == x);
        }
        if list.contains(x) {
            let k = list.index_of(x);
            assert(all[k] == x);
        }
        assert(all[list.len() as int] == item);
    }
    assert(all.to_set() =~= list.to_set().insert(item));
}

proof fn lemma_took_in_both(
    m: MergeView,
    mid: MergeView,
    after: MergeView,
    first: Seq<Seq<char>>,
    second: Seq<Seq<char>>,
)
    requires
        took_in(m, mid, first),
        took_in(mid, after, second),
    ensures
        took_in(m, after, first + second),
{
    let all = first + second;
    vstd::seq_lib::seq_to_set_distributes_over_add(first, second);
    assert(all.to_set() == first.to_set().union(second.to_set()));
    assert(after.taken =~= m.taken.union(all.to_set()));
    if all.no_duplicates() {
        assert forall|a: int, b: int|
            0 <= a < first.len() && 0 <= b < first.len() && a != b implies first[a] != first[b] by {
            assert(all[a] == first[a] && all[b] == first[b]);
        }
        assert forall|a: int, b: int|
            0 <= a < second.len() && 0 <= b < second.len() && a != b implies second[a]
            != second[b] by {
            let n = first.len();
            assert(all[n + a] == second[a] && all[n + b] == second[b]);
        }
        assert forall|x: Seq<char>| first.contains(x) implies !second.contains(x) by {
            if second.contains(x) {
                let a = first.index_of(x);
                let b = second.index_of(x);
                assert(all[a] == x && all[first.len() + b] == x);
            }
        }
        assert(after.walk.skipped =~= m.walk.skipped.union(all.to_set().intersect(m.taken)));
        let a = first.to_set().difference(m.taken);
        let b = second.to_set().difference(mid.taken);
        vstd::seq_lib::seq_to_set_is_finite(first);
        vstd::seq_lib::seq_to_set_is_finite(second);
        assert(all.to_set().difference(m.taken) =~= a.union(b));
        assert(a.disjoint(b));
        vstd::set_lib::lemma_set_disjoint_lens(a, b);
    }
}

proof fn lemma_merged(
    m: MergeView,
    tree: spec_fn(Seq<char>) -> Seq<OverlayEntry>,
    folders: nat,
)
    ensures
        merged(m, tree, folders).walk.pending == pending_after(m.walk.pending, tree, folders),
        took_in(m, merged(m, tree, folders), files_below(m.walk.pending, tree, folders)),
    decreases folders,
{
    if folders == 0 || m.walk.pending.len() == 0 {
        lemma_folder_merged(m, Seq::empty());
    } else {
        let rest = MergeView {
            walk: WalkView { pending: m.walk.pending.drop_last(), ..m.walk },
            ..m
        };
        let entries = tree(m.walk.pending.last());
        let mid = merged_folder(rest, entries);
        lemma_folder_merged(rest, entries);
        lemma_merged(mid, tree, (folders - 1) as nat);
        lemma_took_in_both(
            rest,
            mid,
            merged(mid, tree, (folders - 1) as nat),
            files_in(entries),
            files_below(mid.walk.pending, tree, (folders - 1) as nat),
        );
    }
}

/// A merge accounts for every file of an overlay whose files have different paths: those at whose
/// destinations something stands are reported, and just the others are copied. What stood at a
/// destination still does.
pub proof fn law_merge_accounts_for_every_file(
    tree: spec_fn(Seq<char>) -> Seq<OverlayEntry>,
    taken: Set<Seq<char>>,
    folders: nat,
)
    requires
        files_below(at_start().pending, tree, folders).no_duplicates(),
    ensures
        ({
            let files = files_below(at_start().pending, tree, folders);
            let done = merged(MergeView { walk: at_start(), taken }, tree, folders);
            &&& done.walk.skipped == files.to_set().intersect(taken)
            &&& done.walk.copied + done.walk.skipped.len() == files.len()
            &&& done.taken == taken.union(files.to_set())
        }),
{
    let start = MergeView { walk: at_start(), taken };
    let files = files_below(at_start().pending, tree, folders);
    let all = files.to_set();
    lemma_merged(start, tree, folders);
    vstd::seq_lib::seq_to_set_is_finite(files);
    files.unique_seq_to_set();
    assert(start.walk.skipped.union(all.intersect(taken)) =~= all.intersect(taken));
    assert(all.intersect(taken).union(all.difference(taken)) =~= all);
    vstd::set_lib::lemma_set_disjoint_lens(all.intersect(taken), all.difference(taken));
}

/// A second merge of the same overlay copies nothing and changes no destination. It looks at the
/// same folders and reports every file: those that the first one reported, and those that it
/// copied.
pub proof fn law_second_merge_copies_nothing(
    tree: spec_fn(Seq<char>) -> Seq<OverlayEntry>,
    taken: Set<Seq<char>>,
    folders: nat,
)
    requires
        files_below(at_start().pending, tree, folders).no_duplicates(),
    ensures
        ({
            let files = files_below(at_start().pending, tree, folders);
            let first = merged(MergeView { walk: at_start(), taken }, tree, folders);
            let second = merged(
                MergeView { walk: at_start(), taken: first.taken },
                tree,
                folders,
            );
            &&& second.walk.pending == first.walk.pending
            &&& second.walk.copied == 0
            &&& second.walk.skipped == files.to_set()
            &&& first.walk.skipped.subset_of(second.walk.skipped)
            &&& second.walk.skipped.len() == first.walk.copied + first.walk.skipped.len()
            &&& second.taken == first.taken
        }),
{
    let files = files_below(at_start().pending, tree, folders);
    let start = MergeView { walk: at_start(), taken };
    let first = merged(start, tree, folders);
    let again = MergeView { walk: at_start(), taken: first.taken };
    lemma_merged(start, tree, folders);
    lemma_merged(again, tree, folders);
    law_merge_accounts_for_every_file(tree, taken, folders);
    law_merge_accounts_for_every_file(tree, first.taken, folders);
    files.unique_seq_to_set();
    assert(files.to_set().intersect(first.taken) =~= files.to_set());
    assert(first.taken.union(files.to_set()) =~= first.taken);
}

/// The overlays of a project that moves from one folder to another: the one that is merged into
/// the other. There is nothing to merge where both are one folder, by their paths or by where
/// these lead.
pub fn preserve_workspace_romfs(
    old_workspace: &str,
    new_workspace: &str,
    old_place: Option<&str>,
    new_place: Option<&str>,
) -> (overlays: Option<(String, String)>)
    ensures
        overlays is None <==> (crate::paths::same_place(old_workspace@, new_workspace@) || (
        old_place is Some && new_place is Some && crate::paths::same_place(
            old_place->Some_0@,
            new_place->Some_0@,
        ))),
        overlays matches Some((from, to)) ==> from@ == crate::workspace::overlay_of(
            old_workspace@,
        ) && to@ == crate::workspace::overlay_of(new_workspace@),
{
    if crate::paths::same_path(old_workspace, new_workspace) {
        return None;
    }
    match (old_place, new_place) {
        (Some(a), Some(b)) => {
            if crate::paths::same_path(a, b) {
                return None;
            }
        },
        _ => {},
    }
    Some((workspace_romfs(old_workspace), workspace_romfs(new_workspace)))
}

// ── Laws on single steps ─────────────────────────────────────────────────────

/// What becomes of an entry: a link is left alone, a folder is entered, a file is copied where
/// nothing stands at its destination and reported where something does, and anything else is left
/// alone.
pub proof fn law_every_entry_has_its_fate(w: WalkView, path: Seq<char>, kind: EntryKind, taken: bool)
    ensures
        ({
            let t = visited(w, path, kind, taken);
            let is_file = kind.is_file && !kind.is_dir && !kind.is_symlink;
            let is_folder = kind.is_dir && !kind.is_symlink;
            &&& (fate_of(kind, taken) == EntryFate::Copy) == (is_file && !taken)
            &&& (fate_of(kind, taken) == EntryFate::Conflict) == (is_file && taken)
            &&& (fate_of(kind, taken) == EntryFate::Descend) == is_folder
            &&& t.pending == if is_folder {
                w.pending.push(path)
            } else {
                w.pending
            }
            &&& t.skipped == if is_file && taken {
                w.skipped.insert(path)
            } else {
                w.skipped
            }
            &&& t.copied == w.copied
        }),
{
}

/// A replacement in which a look finds what is there and nothing fails.
pub open spec fn smooth_step(phase: ReplacePhase, disk: Disk) -> (ReplacePhase, Disk) {
    match phase {
        ReplacePhase::ProbeStaging => (after_step(phase, disk.staging is Some), disk),
        ReplacePhase::ProbeDestination => (after_step(phase, disk.destination is Some), disk),
        ReplacePhase::ProbePrevious => (after_step(phase, disk.previous is Some), disk),
        ReplacePhase::RemoveStaging => (after_step(phase, true), Disk { staging: None, ..disk }),
        ReplacePhase::CopySource => (
            after_step(phase, true),
            Disk { staging: Some(Content::Whole), ..disk },
        ),
        ReplacePhase::RemovePrevious => (after_step(phase, true), Disk { previous: None, ..disk }),
        ReplacePhase::MoveAside => (
            after_step(phase, true),
            Disk { previous: disk.destination, destination: None, ..disk },
        ),
        ReplacePhase::Install | ReplacePhase::InstallFresh => (
            after_step(phase, true),
            Disk { destination: disk.staging, staging: None, ..disk },
        ),
        ReplacePhase::DropPrevious => (after_step(phase, true), Disk { previous: None, ..disk }),
        _ => (after_step(phase, true), disk),
    }
}

/// So many steps of it.
pub open spec fn smooth_steps(phase: ReplacePhase, disk: Disk, n: nat) -> (ReplacePhase, Disk)
    decreases n,
{
    if n == 0 {
        (phase, disk)
    } else {
        let (next, changed) = smooth_step(phase, disk);
        smooth_steps(next, changed, (n - 1) as nat)
    }
}

/// A replacement in which nothing fails comes to its end: the destination holds all of the source,
/// and neither a staging file nor a backup is left behind.
pub proof fn law_smooth_replacements_finish(disk: Disk)
    ensures
        ({
            let (phase, end) = smooth_steps(ReplacePhase::ProbeStaging, disk, 9);
            &&& phase == ReplacePhase::Done
            &&& end.destination == Some(Content::Whole)
            &&& end.staging is None
            &&& disk.destination is Some ==> end.previous is None
            &&& disk.destination is None ==> end.previous == disk.previous
        }),
{
    reveal_with_fuel(smooth_steps, 10);
}

/// A replacement fails only because a step did, and says which.
pub proof fn law_failures_name_their_step(phase: ReplacePhase, ok: bool)
    requires
        !(phase is Failed),
        !(phase is DropStaging),
        phase != ReplacePhase::RestorePrevious,
    ensures
        match after_step(phase, ok) {
            ReplacePhase::Failed(f) => !ok && match f {
                ReplaceFailure::RemovingStaleStaging => phase == ReplacePhase::RemoveStaging,
                ReplaceFailure::RemovingStaleBackup => phase == ReplacePhase::RemovePrevious,
                ReplaceFailure::MovingAside => phase == ReplacePhase::MoveAside,
                _ => phase == ReplacePhase::CopySource,
            },
            ReplacePhase::DropStaging(f) => !ok && (phase == ReplacePhase::CopySource || phase
                == ReplacePhase::InstallFresh || phase == ReplacePhase::RemovePrevious || phase
                == ReplacePhase::MoveAside),
            ReplacePhase::RestorePrevious => !ok && phase == ReplacePhase::Install,
            _ => true,
        },
{
}

/// An overlay has files where a regular file stands in it: links, folders and other things are not
/// enough.
pub proof fn law_overlay_needs_a_regular_file(entries: Seq<OverlayEntry>)
    ensures
        holds_file(entries) <==> exists|i: int|
            0 <= i < entries.len() && (#[trigger] entries[i]).kind.is_file
                && !entries[i].kind.is_dir && !entries[i].kind.is_symlink,
{
    if holds_file(entries) {
        let i = choose|i: int|
            0 <= i < entries.len() && fate_of((#[trigger] entries[i]).kind, false)
                == EntryFate::Copy;
        assert(entries[i].kind.is_file && !entries[i].kind.is_dir && !entries[i].kind.is_symlink);
    }
}

} // verus!
