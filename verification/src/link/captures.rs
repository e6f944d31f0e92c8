//! The captured script calls: clearing, forgetting and reading them.
use crate::frames::frame;
use crate::link::GameLink;
use crate::outbox::push_outbox_capped;
use crate::sorted::SortedMap;
use crate::wire::{CaptureDebugSnapshot, CaptureLine};
use vstd::prelude::*;

verus! {

// ── Clearing and forgetting ──────────────────────────────────────────────────

/// The queue with one more command or single edit.
pub open spec fn with_command(outbox: Seq<Seq<char>>, payload: Seq<char>) -> Seq<Seq<char>> {
    crate::outbox::bounded(
        crate::outbox::coalesce(
            outbox.push(crate::frames::framed(payload)),
            crate::outbox::command_marks(),
        ),
    )
}

/// The captures are dropped here, and the game is asked to drop its own.
pub open spec fn cleared(s: crate::link::LinkView) -> crate::link::LinkView {
    crate::link::LinkView {
        outbox: with_command(s.outbox, "{\"command\":\"clear_acmd_captures\"}"@),
        edits_tx: (s.edits_tx + 1) as u64,
        ..crate::link::captures_dropped(s)
    }
}

/// The lines of other fighter kinds, in order.
pub open spec fn without_kind(
    lines: Seq<crate::wire::CaptureView>,
    kind: i32,
) -> Seq<crate::wire::CaptureView>
    decreases lines.len(),
{
    if lines.len() == 0 {
        lines
    } else if lines.last().kind == kind {
        without_kind(lines.drop_last(), kind)
    } else {
        without_kind(lines.drop_last(), kind).push(lines.last())
    }
}

/// The entries of other fighter kinds.
pub open spec fn without_kind_keys<V>(map: Map<(i32, u64), V>, kind: i32) -> Map<(i32, u64), V> {
    Map::new(
        |k: (i32, u64)| map.contains_key(k) && k.0 != kind,
        |k: (i32, u64)| map[k],
    )
}

/// Nothing is kept of a fighter kind, and nothing more of it is taken in.
pub open spec fn forgotten(s: crate::link::LinkView, kind: i32) -> crate::link::LinkView {
    crate::link::LinkView {
        ignored: s.ignored.insert(kind),
        captures: Map::new(
            |m: u64| s.captures.contains_key(m) && without_kind(s.captures[m], kind).len() > 0,
            |m: u64| without_kind(s.captures[m], kind),
        ),
        claimed: without_kind_keys(s.claimed, kind),
        debug: without_kind_keys(s.debug, kind),
        ends: without_kind_keys(s.ends, kind),
        completed: s.completed.filter(|r: (i32, u64, u32)| r.0 != kind),
        captures_seq: (s.captures_seq + 1) as u64,
        ..s
    }
}

/// What is taken out of a list stands in it, and in the same order.
proof fn lemma_without_kind(lines: Seq<crate::wire::CaptureView>, kind: i32)
    requires
        forall|i: int, j: int|
            0 <= i < j < lines.len() ==> !crate::wire::same_line(
                #[trigger] lines[i],
                #[trigger] lines[j],
            ),
    ensures
        forall|i: int|
            0 <= i < without_kind(lines, kind).len() ==> lines.contains(
                #[trigger] without_kind(lines, kind)[i],
            ) && without_kind(lines, kind)[i].kind != kind,
        forall|i: int, j: int|
            0 <= i < j < without_kind(lines, kind).len() ==> !crate::wire::same_line(
                #[trigger] without_kind(lines, kind)[i],
                #[trigger] without_kind(lines, kind)[j],
            ),
    decreases lines.len(),
{
    if lines.len() > 0 {
        let rest = lines.drop_last();
        let kept = without_kind(rest, kind);
        let all = without_kind(lines, kind);
        lemma_without_kind(rest, kind);
        assert forall|i: int| 0 <= i < all.len() implies lines.contains(#[trigger] all[i])
            && all[i].kind != kind by {
            if i < kept.len() {
                assert(rest.contains(kept[i]));
                let k = rest.index_of(kept[i]);
                assert(lines[k] == kept[i]);
            } else {
                assert(lines[lines.len() - 1] == all[i]);
            }
        }
        assert forall|i: int, j: int| 0 <= i < j < all.len() implies !crate::wire::same_line(
            #[trigger] all[i],
            #[trigger] all[j],
        ) by {
            if j < kept.len() {
                assert(!crate::wire::same_line(kept[i], kept[j]));
            } else {
                assert(rest.contains(kept[i]));
                let k = rest.index_of(kept[i]);
                assert(lines[k] == kept[i]);
                assert(!crate::wire::same_line(lines[k], lines[lines.len() - 1]));
            }
        }
    }
}

/// Forgetting a fighter kind keeps the link consistent.
pub proof fn law_forgetting_keeps_consistency(s: crate::link::LinkView, kind: i32)
    requires
        crate::link::consistent(s),
    ensures
        crate::link::consistent(forgotten(s, kind)),
{
    let t = forgotten(s, kind);
    assert forall|m: u64, i: int|
        t.captures.contains_key(m) && 0 <= i < t.captures[m].len() implies ({
        let line = #[trigger] t.captures[m][i];
        &&& line.motion == m
        &&& t.claimed.contains_key((line.kind, m))
        &&& t.claimed[(line.kind, m)] == line.run
        &&& !line.frame.is_nan()
    }) by {
        lemma_without_kind(s.captures[m], kind);
        let line = t.captures[m][i];
        assert(s.captures[m].contains(line));
        let k = s.captures[m].index_of(line);
        assert(s.captures[m][k] == line);
    }
    assert forall|m: u64, i: int, j: int|
        t.captures.contains_key(m) && 0 <= i < j < t.captures[m].len()
            implies !crate::wire::same_line(
        #[trigger] t.captures[m][i],
        #[trigger] t.captures[m][j],
    ) by {
        lemma_without_kind(s.captures[m], kind);
    }
}

/// A forgotten fighter kind leaves no trace, and its lines stay out until it is restored.
pub proof fn law_forgotten_kind_stays_out(
    s: crate::link::LinkView,
    kind: i32,
    line: crate::wire::CaptureView,
)
    requires
        crate::link::consistent(s),
        line.kind == kind,
    ensures
        forall|m: u64, i: int|
            #![trigger forgotten(s, kind).captures[m][i]]
            forgotten(s, kind).captures.contains_key(m) && 0 <= i < forgotten(
                s,
                kind,
            ).captures[m].len() ==> forgotten(s, kind).captures[m][i].kind != kind,
        crate::link::captured(forgotten(s, kind), line) == forgotten(s, kind),
{
    let t = forgotten(s, kind);
    assert forall|m: u64, i: int|
        #![trigger t.captures[m][i]]
        t.captures.contains_key(m) && 0 <= i < t.captures[m].len()
            implies t.captures[m][i].kind != kind by {
        lemma_without_kind(s.captures[m], kind);
    }
}

/// Forgetting one fighter kind keeps every line of the others.
pub proof fn law_forgetting_keeps_other_kinds(
    s: crate::link::LinkView,
    kind: i32,
    motion: u64,
    i: int,
)
    requires
        s.captures.contains_key(motion),
        0 <= i < s.captures[motion].len(),
        s.captures[motion][i].kind != kind,
    ensures
        forgotten(s, kind).captures.contains_key(motion),
        forgotten(s, kind).captures[motion].contains(s.captures[motion][i]),
{
    lemma_kept(s.captures[motion], kind, i);
}

proof fn lemma_kept(lines: Seq<crate::wire::CaptureView>, kind: i32, i: int)
    requires
        0 <= i < lines.len(),
        lines[i].kind != kind,
    ensures
        without_kind(lines, kind).contains(lines[i]),
    decreases lines.len(),
{
    let all = without_kind(lines, kind);
    let kept = without_kind(lines.drop_last(), kind);
    if i == lines.len() - 1 {
        assert(all[all.len() - 1] == lines[i]);
    } else {
        lemma_kept(lines.drop_last(), kind, i);
        assert(kept.contains(lines[i]));
        let k = kept.index_of(lines[i]);
        assert(all[k] == lines[i]);
    }
}

/// Takes the lines of one fighter kind out.
fn drop_kind_lines(lines: &mut Vec<CaptureLine>, kind: i32)
    ensures
        crate::link::line_views(final(lines)@) == without_kind(
            crate::link::line_views(old(lines)@),
            kind,
        ),
{
    let ghost all = crate::link::line_views(lines@);
    let ghost mut p: int = 0;
    let mut i: usize = 0;
    assert(all.take(0) =~= Seq::empty());
    assert(without_kind(all.take(0), kind) + all.skip(0) =~= all);
    while i < lines.len()
        invariant
            0 <= p <= all.len(),
            i == without_kind(all.take(p), kind).len(),
            crate::link::line_views(lines@) == without_kind(all.take(p), kind) + all.skip(p),
        decreases all.len() - p,
    {
        let ghost now = crate::link::line_views(lines@);
        let ghost kept = without_kind(all.take(p), kind);
        proof {
            assert(now.len() == kept.len() + (all.len() - p));
            assert(now[i as int] == lines@[i as int]@);
            assert(now[i as int] == all[p]);
            assert(all.take(p + 1).drop_last() =~= all.take(p));
        }
        if lines[i].kind == kind {
            lines.remove(i);
            proof {
                assert(crate::link::line_views(lines@) =~= now.remove(i as int));
                assert(now.remove(i as int) =~= kept + all.skip(p + 1));
                p = p + 1;
            }
        } else {
            proof {
                assert(now =~= kept.push(all[p]) + all.skip(p + 1));
                p = p + 1;
            }
            i += 1;
        }
    }
    proof {
        assert(crate::link::line_views(lines@).len() == i);
        assert(p == all.len());
        assert(all.take(p) =~= all);
        assert(without_kind(all, kind) + all.skip(p) =~= without_kind(all, kind));
    }
}

/// Takes the entries of one fighter kind out.
fn drop_kind_keys<V>(map: &mut SortedMap<(i32, u64), V>, kind: i32)
    requires
        old(map).wf(),
    ensures
        final(map).wf(),
        final(map)@ == without_kind_keys(old(map)@, kind),
{
    let ghost before = map@;
    let mut i: usize = 0;
    while i < map.len()
        invariant
            map.wf(),
            i <= map.key_list().len(),
            forall|k: (i32, u64)| #[trigger]
                map@.contains_key(k) ==> before.contains_key(k) && before[k] == map@[k],
            forall|k: (i32, u64)| #[trigger]
                before.contains_key(k) && k.0 != kind ==> map@.contains_key(k),
            forall|j: int| 0 <= j < i ==> (#[trigger] map.key_list()[j]).0 != kind,
        decreases map.key_list().len() - i,
    {
        if map.key_at(i).0 == kind {
            map.remove_at(i);
        } else {
            i += 1;
        }
    }
    proof {
        assert forall|k: (i32, u64)| map@.contains_key(k) implies k.0 != kind by {
            let j = map.lemma_key(k);
        }
        assert(map@ =~= without_kind_keys(before, kind));
    }
}

/// Takes the runs of one fighter kind out.
fn drop_kind_runs(map: &mut SortedMap<(i32, u64, u32), ()>, kind: i32)
    requires
        old(map).wf(),
    ensures
        final(map).wf(),
        final(map)@.dom() == old(map)@.dom().filter(|r: (i32, u64, u32)| r.0 != kind),
{
    let ghost before = map@;
    let mut i: usize = 0;
    while i < map.len()
        invariant
            map.wf(),
            i <= map.key_list().len(),
            forall|k: (i32, u64, u32)| #[trigger]
                map@.contains_key(k) ==> before.contains_key(k),
            forall|k: (i32, u64, u32)| #[trigger]
                before.contains_key(k) && k.0 != kind ==> map@.contains_key(k),
            forall|j: int| 0 <= j < i ==> (#[trigger] map.key_list()[j]).0 != kind,
        decreases map.key_list().len() - i,
    {
        if map.key_at(i).0 == kind {
            map.remove_at(i);
        } else {
            i += 1;
        }
    }
    proof {
        assert forall|k: (i32, u64, u32)| map@.contains_key(k) implies k.0 != kind by {
            let j = map.lemma_key(k);
        }
        assert(map@.dom() =~= before.dom().filter(|r: (i32, u64, u32)| r.0 != kind));
    }
}

impl GameLink {
    /// Drops every captured line, and asks the game to drop its own.
    pub fn clear_captures(&mut self)
        requires
            old(self).wf(),
            crate::link::has_room(old(self)@),
        ensures
            final(self).wf(),
            final(self)@ == cleared(old(self)@),
    {
        let ghost before = self@;
        self.drop_captures();
        push_outbox_capped(&mut self.outbox, frame("{\"command\":\"clear_acmd_captures\"}"));
        self.edits_tx = self.edits_tx + 1;
        proof {
            crate::outbox::law_queue_is_bounded(
                crate::outbox::coalesce(
                    before.outbox.push(
                        crate::frames::framed("{\"command\":\"clear_acmd_captures\"}"@),
                    ),
                    crate::outbox::command_marks(),
                ),
            );
            assert(self@ =~= cleared(before));
        }
    }

    /// Drops what was captured of one fighter kind, and ignores what still comes of it.
    pub fn forget_captures_for_kind(&mut self, kind: i32)
        requires
            old(self).wf(),
            old(self)@.captures_seq < u64::MAX,
        ensures
            final(self).wf(),
            final(self)@ == forgotten(old(self)@, kind),
    {
        let ghost before = self@;
        proof {
            law_forgetting_keeps_consistency(before, kind);
        }
        self.ignored.insert(kind, ());
        let ghost old_captures = self.captures@;
        let mut kept: SortedMap<u64, Vec<CaptureLine>> = SortedMap::new();
        while self.captures.len() > 0
            invariant
                self.captures.wf(),
                kept.wf(),
                self.maps_wf(),
                self@ == (crate::link::LinkView {
                    ignored: before.ignored.insert(kind),
                    captures: self@.captures,
                    ..before
                }),
                forall|m: u64| #[trigger]
                    self.captures@.contains_key(m) ==> old_captures.contains_key(m)
                        && self.captures@[m] == old_captures[m],
                forall|m: u64| #[trigger]
                    old_captures.contains_key(m) && !self.captures@.contains_key(m) ==> (
                    kept@.contains_key(m) <==> without_kind(
                        crate::link::line_views(old_captures[m]@),
                        kind,
                    ).len() > 0),
                forall|m: u64| #[trigger]
                    kept@.contains_key(m) ==> old_captures.contains_key(m)
                        && !self.captures@.contains_key(m) && crate::link::line_views(kept@[m]@)
                        == without_kind(crate::link::line_views(old_captures[m]@), kind),
            decreases self.captures.key_list().len(),
        {
            let last: usize = self.captures.len() - 1;
            let motion: u64 = *self.captures.key_at(last);
            let ghost before_step = self.captures@;
            proof {
                self.captures.lemma_entry(last as int);
            }
            let mut lines = self.captures.remove_at(last);
            assert(self.captures@ == before_step.remove(motion));
            drop_kind_lines(&mut lines, kind);
            let ghost left = crate::link::line_views(lines@);
            if lines.len() > 0 {
                kept.insert(motion, lines);
            }
            assert(left == without_kind(crate::link::line_views(old_captures[motion]@), kind));
        }
        self.captures = kept;
        drop_kind_keys(&mut self.claimed, kind);
        drop_kind_keys(&mut self.debug, kind);
        drop_kind_keys(&mut self.ends, kind);
        drop_kind_runs(&mut self.completed, kind);
        self.captures_seq = self.captures_seq + 1;
        assert(self@ =~= forgotten(before, kind));
    }

    /// Takes in captures of a fighter kind again.
    pub fn restore_captures_for_kind(&mut self, kind: i32)
        requires
            old(self).wf(),
        ensures
            final(self).wf(),
            final(self)@ == (crate::link::LinkView {
                ignored: old(self)@.ignored.remove(kind),
                ..old(self)@
            }),
    {
        let ghost before = self@;
        self.ignored.remove(&kind);
        assert(self@ =~= (crate::link::LinkView {
            ignored: before.ignored.remove(kind),
            ..before
        }));
    }
}

/// Of each motion the lines of the other fighter kinds stay, all of them and in order.
pub proof fn law_forgetting_takes_one_kind(lines: Seq<crate::wire::CaptureView>, kind: i32)
    ensures
        crate::selection::keeps_just(
            without_kind(lines, kind),
            lines,
            |line: crate::wire::CaptureView| line.kind != kind,
        ),
    decreases lines.len(),
{
    let other = |line: crate::wire::CaptureView| line.kind != kind;
    if lines.len() == 0 {
        crate::selection::lemma_nothing(lines, other);
        assert(without_kind(lines, kind) =~= Seq::empty());
    } else {
        let rest = lines.drop_last();
        law_forgetting_takes_one_kind(rest, kind);
        crate::selection::lemma_one_more(without_kind(rest, kind), rest, other, lines.last());
        assert(rest.push(lines.last()) =~= lines);
    }
}

/// Clearing drops the captures here and asks the game to drop its own; nothing else of the link
/// changes but its counters.
pub proof fn law_clearing_asks_the_game(s: crate::link::LinkView)
    requires
        s.outbox.len() < crate::outbox::OUTBOX_CAP,
        s.captures_seq < u64::MAX,
        s.edits_tx < u64::MAX,
    ensures
        ({
            let t = cleared(s);
            &&& t.outbox.len() > 0
            &&& t.outbox.last() == crate::frames::framed(
                "{\"command\":\"clear_acmd_captures\"}"@,
            )
            &&& t.captures == Map::<u64, Seq<crate::wire::CaptureView>>::empty()
            &&& t.claimed == Map::<(i32, u64), u32>::empty()
            &&& t.captures_seq == s.captures_seq + 1
            &&& t.edits_tx == s.edits_tx + 1
            &&& t.kinds == s.kinds && t.ignored == s.ignored && t.asset == s.asset
        }),
{
    let all = s.outbox.push(crate::frames::framed("{\"command\":\"clear_acmd_captures\"}"@));
    crate::outbox::law_newest_message_stays(all, crate::outbox::command_marks());
}

/// Forgetting a fighter kind takes away just what belongs to it, and keeps it out from then on.
pub proof fn law_forgetting_takes_what_belongs_to_the_kind(
    s: crate::link::LinkView,
    kind: i32,
    key: (i32, u64),
    run: u32,
)
    ensures
        ({
            let t = forgotten(s, kind);
            &&& t.ignored.contains(kind)
            &&& t.claimed.contains_key(key) == (s.claimed.contains_key(key) && key.0 != kind)
            &&& t.debug.contains_key(key) == (s.debug.contains_key(key) && key.0 != kind)
            &&& t.ends.contains_key(key) == (s.ends.contains_key(key) && key.0 != kind)
            &&& t.completed.contains((key.0, key.1, run)) == (s.completed.contains(
                (key.0, key.1, run),
            ) && key.0 != kind)
            &&& t.claimed.contains_key(key) ==> t.claimed[key] == s.claimed[key]
            &&& t.ends.contains_key(key) ==> t.ends[key] == s.ends[key]
            &&& forall|m: u64| #[trigger]
                t.captures.contains_key(m) ==> s.captures.contains_key(m) && t.captures[m]
                    == without_kind(s.captures[m], kind)
            &&& t.kinds == s.kinds && t.outbox == s.outbox && t.asset == s.asset
        }),
{
}

} // verus!
