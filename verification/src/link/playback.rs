//! Reading the captured calls of one playback.
use crate::link::GameLink;
use crate::wire::{CaptureDebugSnapshot, CaptureLine};
use vstd::prelude::*;

verus! {

/// The line belongs to the fighter kind asked for, if one is.
pub open spec fn of_kind(line: crate::wire::CaptureView, kind: Option<i32>) -> bool {
    match kind {
        Some(k) => line.kind == k,
        None => true,
    }
}

/// The greatest run among the lines of a fighter kind.
pub open spec fn latest_run(
    lines: Seq<crate::wire::CaptureView>,
    kind: Option<i32>,
) -> Option<u32>
    decreases lines.len(),
{
    if lines.len() == 0 {
        None
    } else {
        let rest = latest_run(lines.drop_last(), kind);
        if !of_kind(lines.last(), kind) {
            rest
        } else {
            match rest {
                Some(run) => Some(
                    if run < lines.last().run {
                        lines.last().run
                    } else {
                        run
                    },
                ),
                None => Some(lines.last().run),
            }
        }
    }
}

/// The lines of one run of a fighter kind, in order.
pub open spec fn run_lines(
    lines: Seq<crate::wire::CaptureView>,
    kind: Option<i32>,
    run: u32,
) -> Seq<crate::wire::CaptureView>
    decreases lines.len(),
{
    if lines.len() == 0 {
        lines
    } else if of_kind(lines.last(), kind) && lines.last().run == run {
        run_lines(lines.drop_last(), kind, run).push(lines.last())
    } else {
        run_lines(lines.drop_last(), kind, run)
    }
}

/// A list in frame order with one more line, behind those of the same frame.
pub open spec fn insert_line(
    sorted: Seq<crate::wire::CaptureView>,
    line: crate::wire::CaptureView,
) -> Seq<crate::wire::CaptureView>
    decreases sorted.len(),
{
    if sorted.len() == 0 || sorted.last().frame.rank() <= line.frame.rank() {
        sorted.push(line)
    } else {
        insert_line(sorted.drop_last(), line).push(sorted.last())
    }
}

/// The lines in frame order, those of one frame in the order they came.
pub open spec fn by_frame(
    lines: Seq<crate::wire::CaptureView>,
) -> Seq<crate::wire::CaptureView>
    decreases lines.len(),
{
    if lines.len() == 0 {
        lines
    } else {
        insert_line(by_frame(lines.drop_last()), lines.last())
    }
}

/// The lines of the latest playback of a motion by a fighter kind, in frame order.
pub open spec fn latest_lines(
    s: crate::link::LinkView,
    motion: u64,
    kind: Option<i32>,
) -> Seq<crate::wire::CaptureView> {
    let lines = crate::link::lines_of(s, motion);
    match latest_run(lines, kind) {
        Some(run) => by_frame(run_lines(lines, kind, run)),
        None => Seq::empty(),
    }
}

/// The frames ascend.
pub open spec fn in_frame_order(lines: Seq<crate::wire::CaptureView>) -> bool {
    forall|i: int, j: int|
        0 <= i < j < lines.len() ==> (#[trigger] lines[i]).frame.rank() <= (
        #[trigger] lines[j]).frame.rank()
}

/// The lines at one frame, in order.
pub open spec fn at_frame(
    lines: Seq<crate::wire::CaptureView>,
    rank: int,
) -> Seq<crate::wire::CaptureView>
    decreases lines.len(),
{
    if lines.len() == 0 {
        lines
    } else if lines.last().frame.rank() == rank {
        at_frame(lines.drop_last(), rank).push(lines.last())
    } else {
        at_frame(lines.drop_last(), rank)
    }
}

proof fn lemma_insert_line(
    sorted: Seq<crate::wire::CaptureView>,
    line: crate::wire::CaptureView,
    p: int,
)
    requires
        0 <= p <= sorted.len(),
        p > 0 ==> sorted[p - 1].frame.rank() <= line.frame.rank(),
        forall|j: int|
            p <= j < sorted.len() ==> line.frame.rank() < (#[trigger] sorted[j]).frame.rank(),
    ensures
        insert_line(sorted, line) == sorted.insert(p, line),
    decreases sorted.len(),
{
    if p == sorted.len() {
        assert(sorted.insert(p, line) =~= sorted.push(line));
    } else {
        let rest = sorted.drop_last();
        lemma_insert_line(rest, line, p);
        assert(sorted.insert(p, line) =~= rest.insert(p, line).push(sorted.last()));
    }
}

proof fn lemma_insert_ordered(
    sorted: Seq<crate::wire::CaptureView>,
    line: crate::wire::CaptureView,
)
    requires
        in_frame_order(sorted),
    ensures
        in_frame_order(insert_line(sorted, line)),
        insert_line(sorted, line).len() == sorted.len() + 1,
        forall|j: int|
            0 <= j <= sorted.len() ==> (#[trigger] insert_line(sorted, line)[j]).frame.rank()
                <= line.frame.rank() || (sorted.len() > 0 && insert_line(
                sorted,
                line,
            )[j].frame.rank() <= sorted.last().frame.rank()),
    decreases sorted.len(),
{
    if !(sorted.len() == 0 || sorted.last().frame.rank() <= line.frame.rank()) {
        lemma_insert_ordered(sorted.drop_last(), line);
    }
}

proof fn lemma_insert_at_frame(
    sorted: Seq<crate::wire::CaptureView>,
    line: crate::wire::CaptureView,
    rank: int,
)
    requires
        in_frame_order(sorted),
    ensures
        at_frame(insert_line(sorted, line), rank) == if line.frame.rank() == rank {
            at_frame(sorted, rank).push(line)
        } else {
            at_frame(sorted, rank)
        },
    decreases sorted.len(),
{
    let all = insert_line(sorted, line);
    if sorted.len() == 0 || sorted.last().frame.rank() <= line.frame.rank() {
        assert(all.drop_last() =~= sorted);
    } else {
        let rest = sorted.drop_last();
        lemma_insert_at_frame(rest, line, rank);
        assert(all.drop_last() =~= insert_line(rest, line));
        if sorted.last().frame.rank() == rank {
            assert(line.frame.rank() != rank);
        }
    }
}

/// A playback is read in script time: frames ascend, and within one frame the lines keep the order
/// in which the game executed them. No line is added and none is lost.
pub proof fn law_playback_is_in_script_time(lines: Seq<crate::wire::CaptureView>, rank: int)
    ensures
        in_frame_order(by_frame(lines)),
        by_frame(lines).len() == lines.len(),
        at_frame(by_frame(lines), rank) == at_frame(lines, rank),
    decreases lines.len(),
{
    if lines.len() > 0 {
        law_playback_is_in_script_time(lines.drop_last(), rank);
        lemma_insert_ordered(by_frame(lines.drop_last()), lines.last());
        lemma_insert_at_frame(by_frame(lines.drop_last()), lines.last(), rank);
    }
}

proof fn lemma_one_run(
    s: crate::link::LinkView,
    lines: Seq<crate::wire::CaptureView>,
    motion: u64,
    kind: i32,
)
    requires
        s.claimed.contains_key((kind, motion)),
        forall|i: int|
            0 <= i < lines.len() && (#[trigger] lines[i]).kind == kind ==> lines[i].run
                == s.claimed[(kind, motion)],
    ensures
        latest_run(lines, Some(kind)) is Some ==> latest_run(lines, Some(kind)) == Some(
            s.claimed[(kind, motion)],
        ),
    decreases lines.len(),
{
    if lines.len() > 0 {
        lemma_one_run(s, lines.drop_last(), motion, kind);
    }
}

/// What is read of a fighter kind and motion is always the run that claimed it: a later playback
/// never shows.
pub proof fn law_only_the_claimed_run_shows(s: crate::link::LinkView, motion: u64, kind: i32)
    requires
        crate::link::consistent(s),
        s.claimed.contains_key((kind, motion)),
    ensures
        latest_run(crate::link::lines_of(s, motion), Some(kind)) is Some ==> latest_run(
            crate::link::lines_of(s, motion),
            Some(kind),
        ) == Some(s.claimed[(kind, motion)]),
{
    let lines = crate::link::lines_of(s, motion);
    if s.captures.contains_key(motion) {
        assert forall|i: int|
            0 <= i < lines.len() && (#[trigger] lines[i]).kind == kind implies lines[i].run
            == s.claimed[(kind, motion)] by {
            assert(s.captures[motion][i] == lines[i]);
        }
    }
    lemma_one_run(s, lines, motion, kind);
}

/// A line of another run than the claimed one changes nothing.
pub proof fn law_later_runs_are_refused(
    s: crate::link::LinkView,
    line: crate::wire::CaptureView,
)
    requires
        s.claimed.contains_key((line.kind, line.motion)),
        s.claimed[(line.kind, line.motion)] != line.run,
    ensures
        crate::link::captured(s, line) == s,
{
}

/// A line that comes again changes nothing.
pub proof fn law_repeated_line_changes_nothing(
    s: crate::link::LinkView,
    line: crate::wire::CaptureView,
)
    requires
        crate::link::has_room(s),
        crate::wire::same_line(line, line),
    ensures
        crate::link::captured(crate::link::captured(s, line), line) == crate::link::captured(
            s,
            line,
        ),
{
    let t = crate::link::captured(s, line);
    let key = (line.kind, line.motion);
    let lines = crate::link::lines_of(t, line.motion);
    if !s.ignored.contains(line.kind) && !(s.claimed.contains_key(key) && s.claimed[key]
        != line.run) {
        assert(t.claimed.insert(key, line.run) =~= t.claimed);
        if !crate::link::already_captured(crate::link::lines_of(s, line.motion), line) {
            assert(lines[lines.len() - 1] == line);
        }
        assert(crate::link::already_captured(lines, line));
        assert(crate::link::captured(t, line) =~= t);
    }
}

/// Whether the line belongs to the fighter kind asked for.
fn is_of_kind(line: &CaptureLine, kind: Option<i32>) -> (b: bool)
    ensures
        b == of_kind(line@, kind),
{
    match kind {
        Some(k) => line.kind == k,
        None => true,
    }
}

/// The greatest run among the lines of a fighter kind.
fn find_latest_run(lines: &Vec<CaptureLine>, kind: Option<i32>) -> (run: Option<u32>)
    ensures
        run == latest_run(crate::link::line_views(lines@), kind),
{
    let ghost all = crate::link::line_views(lines@);
    let mut run: Option<u32> = None;
    let mut i: usize = 0;
    assert(all.take(0).len() == 0);
    while i < lines.len()
        invariant
            i <= lines@.len(),
            all == crate::link::line_views(lines@),
            run == latest_run(all.take(i as int), kind),
        decreases lines@.len() - i,
    {
        proof {
            assert(all.take(i + 1).drop_last() =~= all.take(i as int));
            assert(all.take(i + 1).last() == lines@[i as int]@);
        }
        if is_of_kind(&lines[i], kind) {
            run = match run {
                Some(latest) => Some(
                    if latest < lines[i].run {
                        lines[i].run
                    } else {
                        latest
                    },
                ),
                None => Some(lines[i].run),
            };
        }
        i += 1;
    }
    assert(all.take(i as int) =~= all);
    run
}

/// Puts a line where it belongs in frame order.
fn place_line(sorted: &mut Vec<CaptureLine>, line: CaptureLine)
    requires
        in_frame_order(crate::link::line_views(old(sorted)@)),
    ensures
        crate::link::line_views(final(sorted)@) == insert_line(
            crate::link::line_views(old(sorted)@),
            line@,
        ),
{
    let ghost before = crate::link::line_views(sorted@);
    let mut p: usize = sorted.len();
    while p > 0 && line.frame.less_than(sorted[p - 1].frame)
        invariant
            p <= sorted@.len(),
            before == crate::link::line_views(sorted@),
            forall|j: int|
                p <= j < before.len() ==> line@.frame.rank() < (#[trigger] before[j]).frame.rank(),
        decreases p,
    {
        assert(before[p - 1] == sorted@[p - 1]@);
        p -= 1;
    }
    proof {
        if p > 0 {
            assert(before[p - 1] == sorted@[p - 1]@);
        }
        lemma_insert_line(before, line@, p as int);
    }
    sorted.insert(p, line);
    assert(crate::link::line_views(sorted@) =~= before.insert(p as int, line@));
}

impl GameLink {
    /// The lines of the latest playback of `motion` by `kind` (by any fighter, where none is
    /// named): one performance, in script time.
    pub fn latest_run_for(&self, motion: u64, kind: Option<i32>) -> (lines: Vec<CaptureLine>)
        requires
            self.wf(),
        ensures
            crate::link::line_views(lines@) == latest_lines(self@, motion, kind),
    {
        let mut sorted: Vec<CaptureLine> = Vec::new();
        let lines = match self.captures.get(&motion) {
            Some(lines) => lines,
            None => {
                assert(crate::link::line_views(sorted@) =~= Seq::empty());
                return sorted;
            },
        };
        let ghost all = crate::link::line_views(lines@);
        assert(all == crate::link::lines_of(self@, motion));
        let run: u32 = match find_latest_run(lines, kind) {
            Some(run) => run,
            None => {
                assert(crate::link::line_views(sorted@) =~= Seq::empty());
                return sorted;
            },
        };
        let mut i: usize = 0;
        assert(all.take(0).len() == 0);
        assert(crate::link::line_views(sorted@) =~= by_frame(run_lines(all.take(0), kind, run)));
        while i < lines.len()
            invariant
                i <= lines@.len(),
                all == crate::link::line_views(lines@),
                crate::link::line_views(sorted@) == by_frame(
                    run_lines(all.take(i as int), kind, run),
                ),
            decreases lines@.len() - i,
        {
            proof {
                assert(all.take(i + 1).drop_last() =~= all.take(i as int));
                assert(all.take(i + 1).last() == lines@[i as int]@);
                law_playback_is_in_script_time(run_lines(all.take(i as int), kind, run), 0);
            }
            if is_of_kind(&lines[i], kind) && lines[i].run == run {
                let line = lines[i].clone();
                place_line(&mut sorted, line);
                proof {
                    let before = run_lines(all.take(i as int), kind, run);
                    assert(before.push(line@).drop_last() =~= before);
                }
            }
            i += 1;
        }
        assert(all.take(i as int) =~= all);
        sorted
    }

    /// How many lines the latest playback of `motion` by `kind` has produced so far.
    pub fn captures_count(&self, motion: u64, kind: Option<i32>) -> (count: usize)
        requires
            self.wf(),
        ensures
            count == latest_lines(self@, motion, kind).len(),
    {
        let lines = match self.captures.get(&motion) {
            Some(lines) => lines,
            None => {
                return 0;
            },
        };
        let ghost all = crate::link::line_views(lines@);
        assert(all == crate::link::lines_of(self@, motion));
        let run: u32 = match find_latest_run(lines, kind) {
            Some(run) => run,
            None => {
                return 0;
            },
        };
        let mut count: usize = 0;
        let mut i: usize = 0;
        assert(all.take(0).len() == 0);
        while i < lines.len()
            invariant
                count <= i <= lines@.len(),
                all == crate::link::line_views(lines@),
                count == run_lines(all.take(i as int), kind, run).len(),
            decreases lines@.len() - i,
        {
            proof {
                assert(all.take(i + 1).drop_last() =~= all.take(i as int));
                assert(all.take(i + 1).last() == lines@[i as int]@);
            }
            if is_of_kind(&lines[i], kind) && lines[i].run == run {
                count += 1;
            }
            i += 1;
        }
        proof {
            assert(all.take(i as int) =~= all);
            law_playback_is_in_script_time(run_lines(all, kind, run), 0);
        }
        count
    }

    /// The run of the latest playback of `motion` by `kind`.
    pub fn latest_run_id(&self, motion: u64, kind: Option<i32>) -> (run: Option<u32>)
        requires
            self.wf(),
        ensures
            run == latest_run(crate::link::lines_of(self@, motion), kind),
    {
        match self.captures.get(&motion) {
            Some(lines) => find_latest_run(lines, kind),
            None => None,
        }
    }

    /// Whether this run of `motion` by `kind` (by some fighter, where none is named) has ended.
    pub fn capture_run_complete(&self, kind: Option<i32>, motion: u64, run: u32) -> (b: bool)
        requires
            self.wf(),
        ensures
            b == match kind {
                Some(k) => self@.completed.contains((k, motion, run)),
                None => exists|k: i32| #[trigger] self@.completed.contains((k, motion, run)),
            },
    {
        match kind {
            Some(k) => self.completed.contains_key(&(k, motion, run)),
            None => {
                let mut i: usize = 0;
                while i < self.completed.len()
                    invariant
                        self.wf(),
                        kind is None,
                        i <= self.completed.key_list().len(),
                        forall|j: int|
                            0 <= j < i ==> {
                                let r = #[trigger] self.completed.key_list()[j];
                                !(r.1 == motion && r.2 == run)
                            },
                    decreases self.completed.key_list().len() - i,
                {
                    let key = self.completed.key_at(i);
                    if key.1 == motion && key.2 == run {
                        proof {
                            self.completed.lemma_entry(i as int);
                            assert(key@ == (key.0, motion, run));
                            assert(self@.completed.contains((key.0, motion, run)));
                        }
                        return true;
                    }
                    i += 1;
                }
                proof {
                    assert forall|k: i32| !#[trigger] self@.completed.contains(
                        (k, motion, run),
                    ) by {
                        if self@.completed.contains((k, motion, run)) {
                            let j = self.completed.lemma_key((k, motion, run));
                        }
                    }
                }
                false
            },
        }
    }

    /// How many playbacks of `motion` by `kind` have ended; of all fighters, where none is named.
    pub fn capture_end_count(&self, motion: u64, kind: Option<i32>) -> (count: u64)
        requires
            self.wf(),
        ensures
            count == match kind {
                Some(k) => if self@.ends.contains_key((k, motion)) {
                    self@.ends[(k, motion)] as int
                } else {
                    0
                },
                None => self@.ends.dom().filter(|key: (i32, u64)| key.1 == motion).len() as int,
            },
    {
        match kind {
            Some(k) => match self.ends.get(&(k, motion)) {
                Some(n) => *n,
                None => 0,
            },
            None => {
                let ghost keys = self.ends.key_list();
                let ghost wanted = |key: (i32, u64)| key.1 == motion;
                let mut count: u64 = 0;
                let mut i: usize = 0;
                proof {
                    assert(keys.take(0).to_set().filter(wanted) =~= Set::empty());
                }
                while i < self.ends.len()
                    invariant
                        self.wf(),
                        keys == self.ends.key_list(),
                        wanted == (|key: (i32, u64)| key.1 == motion),
                        i <= keys.len(),
                        count <= i,
                        keys.take(i as int).to_set().filter(wanted).finite(),
                        count == keys.take(i as int).to_set().filter(wanted).len(),
                    decreases keys.len() - i,
                {
                    let ghost seen = keys.take(i as int).to_set().filter(wanted);
                    let ghost next = keys.take(i + 1).to_set().filter(wanted);
                    let key = self.ends.key_at(i);
                    proof {
                        assert(keys.take(i + 1) =~= keys.take(i as int).push(key@));
                        assert forall|x: (i32, u64)| next.contains(x) == (seen.contains(x) || (x
                            == key@ && wanted(x))) by {
                            let now = keys.take(i + 1);
                            let past = keys.take(i as int);
                            if past.contains(x) {
                                let j = past.index_of(x);
                                assert(now[j] == x);
                            }
                            if now.contains(x) {
                                let j = now.index_of(x);
                                if j < i {
                                    assert(past[j] == x);
                                }
                            }
                            assert(now[i as int] == key@);
                        }
                        assert(!seen.contains(key@)) by {
                            if seen.contains(key@) {
                                let past = keys.take(i as int);
                                let j = past.index_of(key@);
                                assert(keys[j] == key@ && keys[i as int] == key@);
                            }
                        }
                        if wanted(key@) {
                            assert(next =~= seen.insert(key@));
                        } else {
                            assert(next =~= seen);
                        }
                    }
                    if key.1 == motion {
                        count += 1;
                    }
                    i += 1;
                }
                proof {
                    assert(keys.take(i as int) =~= keys);
                    self.ends.lemma_lists();
                    assert(self@.ends.dom() =~= keys.to_set());
                }
                count
            },
        }
    }

    /// How captures are going, by fighter kind and motion.
    pub fn capture_debug(&self) -> (rows: Vec<CaptureDebugSnapshot>)
        requires
            self.wf(),
        ensures
            forall|i: int|
                #![trigger rows@[i]]
                0 <= i < rows@.len() ==> self@.debug.contains_key((rows@[i].kind, rows@[i].motion))
                    && self@.debug[(rows@[i].kind, rows@[i].motion)] == rows@[i],
            forall|i: int, j: int|
                0 <= i < j < rows@.len() ==> {
                    let a = #[trigger] rows@[i];
                    let b = #[trigger] rows@[j];
                    a.kind < b.kind || (a.kind == b.kind && a.motion < b.motion)
                },
            forall|k: (i32, u64)| #[trigger]
                self@.debug.contains_key(k) ==> rows@.contains(self@.debug[k]),
    {
        let mut rows: Vec<CaptureDebugSnapshot> = Vec::new();
        let mut i: usize = 0;
        while i < self.debug.len()
            invariant
                self.wf(),
                i <= self.debug.key_list().len(),
                rows@ == self.debug.value_list().take(i as int),
            decreases self.debug.key_list().len() - i,
        {
            rows.push(*self.debug.value_at(i));
            i += 1;
        }
        proof {
            let keys = self.debug.key_list();
            assert(rows@ =~= self.debug.value_list());
            assert forall|j: int| 0 <= j < rows@.len() implies keys[j] == (
                (#[trigger] rows@[j]).kind,
                rows@[j].motion,
            ) && self@.debug.contains_key(keys[j]) && self@.debug[keys[j]] == rows@[j] by {
                self.debug.lemma_entry(j);
                assert(self@.debug.contains_key(keys[j]));
                assert(rows@[j] == self.debug.value_list()[j]);
                assert(keys[j] == (keys[j].0, keys[j].1));
            }
            assert forall|k: (i32, u64)| #[trigger] self@.debug.contains_key(k) implies rows@.contains(
                self@.debug[k],
            ) by {
                let j = self.debug.lemma_key(k);
                assert(rows@[j] == self@.debug[k]);
            }
        }
        rows
    }
}

/// No line of the fighter kind belongs to a later run, and one belongs to this.
pub open spec fn is_latest_run(
    lines: Seq<crate::wire::CaptureView>,
    kind: Option<i32>,
    run: u32,
) -> bool {
    &&& exists|i: int|
        0 <= i < lines.len() && (kind is None || (#[trigger] lines[i]).kind == kind->Some_0)
            && lines[i].run == run
    &&& forall|i: int|
        0 <= i < lines.len() && (kind is None || (#[trigger] lines[i]).kind == kind->Some_0)
            ==> lines[i].run <= run
}

proof fn lemma_latest_run(lines: Seq<crate::wire::CaptureView>, kind: Option<i32>)
    ensures
        match latest_run(lines, kind) {
            Some(run) => is_latest_run(lines, kind, run),
            None => forall|i: int|
                0 <= i < lines.len() ==> kind is Some && (#[trigger] lines[i]).kind
                    != kind->Some_0,
        },
    decreases lines.len(),
{
    if lines.len() > 0 {
        let rest = lines.drop_last();
        lemma_latest_run(rest, kind);
        let n = lines.len() - 1;
        assert forall|i: int| 0 <= i < n implies lines[i] == #[trigger] rest[i] by {}
        if latest_run(rest, kind) is Some {
            let run = latest_run(rest, kind)->Some_0;
            let i = choose|i: int|
                0 <= i < rest.len() && (kind is None || (#[trigger] rest[i]).kind == kind->Some_0)
                    && rest[i].run == run;
            assert(lines[i] == rest[i]);
        }
        if latest_run(lines, kind) is Some {
            let run = latest_run(lines, kind)->Some_0;
            assert(lines[n] == lines.last());
            assert forall|i: int|
                0 <= i < lines.len() && (kind is None || (#[trigger] lines[i]).kind
                    == kind->Some_0) implies lines[i].run <= run by {
                if i < n {
                    assert(lines[i] == rest[i]);
                }
            }
        }
        if latest_run(lines, kind) is None {
            assert forall|i: int| 0 <= i < lines.len() implies kind is Some && (
            #[trigger] lines[i]).kind != kind->Some_0 by {
                if i < n {
                    assert(lines[i] == rest[i]);
                }
            }
        }
    }
}

proof fn lemma_run_lines(lines: Seq<crate::wire::CaptureView>, kind: Option<i32>, run: u32)
    ensures
        crate::selection::keeps_just(
            run_lines(lines, kind, run),
            lines,
            |line: crate::wire::CaptureView|
                (kind is None || line.kind == kind->Some_0) && line.run == run,
        ),
    decreases lines.len(),
{
    let asked = |line: crate::wire::CaptureView|
        (kind is None || line.kind == kind->Some_0) && line.run == run;
    if lines.len() == 0 {
        crate::selection::lemma_nothing(lines, asked);
        assert(run_lines(lines, kind, run) =~= Seq::empty());
    } else {
        let rest = lines.drop_last();
        lemma_run_lines(rest, kind, run);
        crate::selection::lemma_one_more(run_lines(rest, kind, run), rest, asked, lines.last());
        assert(rest.push(lines.last()) =~= lines);
    }
}

proof fn lemma_insert_keeps(
    sorted: Seq<crate::wire::CaptureView>,
    line: crate::wire::CaptureView,
)
    ensures
        insert_line(sorted, line).to_multiset() == sorted.to_multiset().insert(line),
    decreases sorted.len(),
{
    broadcast use vstd::seq_lib::group_to_multiset_ensures;

    if !(sorted.len() == 0 || sorted.last().frame.rank() <= line.frame.rank()) {
        lemma_insert_keeps(sorted.drop_last(), line);
        assert(sorted.drop_last().push(sorted.last()) =~= sorted);
        assert(insert_line(sorted, line).to_multiset() =~= sorted.to_multiset().insert(line));
    }
}

proof fn lemma_by_frame_keeps(lines: Seq<crate::wire::CaptureView>)
    ensures
        by_frame(lines).to_multiset() == lines.to_multiset(),
    decreases lines.len(),
{
    broadcast use vstd::seq_lib::group_to_multiset_ensures;

    if lines.len() > 0 {
        lemma_by_frame_keeps(lines.drop_last());
        lemma_insert_keeps(by_frame(lines.drop_last()), lines.last());
        assert(lines.drop_last().push(lines.last()) =~= lines);
    }
}

/// A playback is read whole: every stored line of the motion that is of the fighter kind and of
/// its latest run occurs as often as it is stored, also where several stand on one frame, and no
/// other line occurs. Without a line of the kind there is nothing to read.
pub proof fn law_playback_is_whole(
    s: crate::link::LinkView,
    motion: u64,
    kind: Option<i32>,
    line: crate::wire::CaptureView,
)
    ensures
        ({
            let stored = crate::link::lines_of(s, motion);
            let read = latest_lines(s, motion, kind);
            let is_asked = kind is None || line.kind == kind->Some_0;
            &&& read.to_multiset().count(line) == if is_asked && is_latest_run(
                stored,
                kind,
                line.run,
            ) {
                stored.to_multiset().count(line)
            } else {
                0
            }
            &&& in_frame_order(read)
        }),
{
    broadcast use vstd::seq_lib::group_to_multiset_ensures;

    let stored = crate::link::lines_of(s, motion);
    lemma_latest_run(stored, kind);
    match latest_run(stored, kind) {
        Some(run) => {
            let asked = |l: crate::wire::CaptureView|
                (kind is None || l.kind == kind->Some_0) && l.run == run;
            lemma_run_lines(stored, kind, run);
            lemma_by_frame_keeps(run_lines(stored, kind, run));
            law_playback_is_in_script_time(run_lines(stored, kind, run), 0);
            crate::selection::law_selections_keep_counts(
                run_lines(stored, kind, run),
                stored,
                asked,
                line,
            );
            if (kind is None || line.kind == kind->Some_0) && line.run != run {
                if is_latest_run(stored, kind, line.run) {
                    let i = choose|i: int|
                        0 <= i < stored.len() && (kind is None || (#[trigger] stored[i]).kind
                            == kind->Some_0) && stored[i].run == run;
                    let j = choose|j: int|
                        0 <= j < stored.len() && (kind is None || (#[trigger] stored[j]).kind
                            == kind->Some_0) && stored[j].run == line.run;
                    assert(stored[i].run <= line.run);
                    assert(stored[j].run <= run);
                }
            }
        },
        None => {
            if is_latest_run(stored, kind, line.run) {
                let i = choose|i: int|
                    0 <= i < stored.len() && (kind is None || (#[trigger] stored[i]).kind
                        == kind->Some_0) && stored[i].run == line.run;
                assert(stored[i].kind != kind->Some_0);
            }
            assert(latest_lines(s, motion, kind) =~= Seq::empty());
        },
    }
}

} // verus!
