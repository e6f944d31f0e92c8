//! What the rest of the editor reads from the link.
use crate::link::{GameLink, LinkStatus};
use crate::wire::{CaptureLine, LiveKind};
use vstd::prelude::*;

verus! {

/// Progress of the asset carrier. `served` counts the files of the current generation that were
/// really read, and `ready` comes only when all of them were and the carrier is live.
#[derive(Debug, PartialEq, Eq)]
pub struct AssetBundleStatus {
    pub target: String,
    pub generation: u64,
    pub staged: usize,
    pub served: usize,
    pub serving_generation: u64,
    pub phase: String,
    pub ready: bool,
    pub reports: u64,
}

impl AssetBundleStatus {
    /// What the status says of the carrier.
    pub open spec fn report(&self) -> crate::events::AssetReportView {
        crate::events::AssetReportView {
            target: self.target@,
            generation: self.generation,
            staged: self.staged,
            served: self.served,
            serving_generation: self.serving_generation,
            phase: self.phase@,
            ready: self.ready,
        }
    }
}

impl Default for AssetBundleStatus {
    /// No report yet.
    fn default() -> (status: Self)
        ensures
            status.report() == (crate::events::AssetReportView {
                target: Seq::empty(),
                generation: 0,
                staged: 0,
                served: 0,
                serving_generation: 0,
                phase: Seq::empty(),
                ready: false,
            }),
            status.reports == 0,
    {
        let status = AssetBundleStatus {
            target: String::new(),
            generation: 0,
            staged: 0,
            served: 0,
            serving_generation: 0,
            phase: String::new(),
            ready: false,
            reports: 0,
        };
        assert(status.target@ =~= Seq::empty());
        assert(status.phase@ =~= Seq::empty());
        status
    }
}

/// `list` holds the entries of `kinds` that satisfy `wanted`, by ascending id.
pub open spec fn lists_kinds(
    list: Seq<(u64, LiveKind)>,
    kinds: Map<u64, LiveKind>,
    wanted: spec_fn(LiveKind) -> bool,
) -> bool {
    &&& forall|i: int|
        #![trigger list[i]]
        0 <= i < list.len() ==> kinds.contains_key(list[i].0) && kinds[list[i].0] == list[i].1
            && wanted(list[i].1)
    &&& forall|i: int, j: int|
        0 <= i < j < list.len() ==> (#[trigger] list[i]).0 < (#[trigger] list[j]).0
    &&& forall|id: u64| #[trigger]
        kinds.contains_key(id) && wanted(kinds[id]) ==> exists|i: int|
            0 <= i < list.len() && (#[trigger] list[i]).0 == id
}

/// The game reports active pins for the kind.
pub open spec fn is_pinned(kind: LiveKind) -> bool {
    kind.pins is Some && kind.pins.unwrap().pins_anything()
}

/// The lines of the motions, one motion after the other, each with its motion.
pub open spec fn tagged_lines(
    motions: Seq<u64>,
    captures: Map<u64, Seq<crate::wire::CaptureView>>,
) -> Seq<(u64, crate::wire::CaptureView)>
    decreases motions.len(),
{
    if motions.len() == 0 {
        Seq::empty()
    } else {
        let motion = motions.last();
        tagged_lines(motions.drop_last(), captures) + Seq::new(
            captures[motion].len(),
            |i: int| (motion, captures[motion][i]),
        )
    }
}

/// The views of a list of lines with their motions.
pub open spec fn tagged_views(
    list: Seq<(u64, CaptureLine)>,
) -> Seq<(u64, crate::wire::CaptureView)> {
    Seq::new(list.len(), |i: int| (list[i].0, list[i].1@))
}

impl GameLink {
    pub fn status(&self) -> (status: LinkStatus)
        ensures
            status == self@.status,
    {
        self.status
    }

    /// Why the last connection failed or ended.
    pub fn last_error(&self) -> (error: Option<String>)
        ensures
            crate::events::optional_text(error) == self@.last_error,
    {
        match &self.last_error {
            Some(error) => Some(error.clone()),
            None => None,
        }
    }

    /// The frames received and the edits sent.
    pub fn stats(&self) -> (counts: (u64, u64))
        ensures
            counts == (self@.frames_rx, self@.edits_tx),
    {
        (self.frames_rx, self.edits_tx)
    }

    /// Whether the counters can still count.
    pub fn can_count(&self) -> (b: bool)
        ensures
            b == crate::link::has_room(self@),
    {
        self.frames_rx < u64::MAX && self.edits_tx < u64::MAX && self.captures_seq < u64::MAX
    }

    /// All live kinds, by ascending id.
    pub fn kinds(&self) -> (list: Vec<(u64, LiveKind)>)
        requires
            self.wf(),
        ensures
            lists_kinds(list@, self@.kinds, |kind: LiveKind| true),
    {
        self.list_kinds(false)
    }

    /// The live kinds with active pins, by ascending id.
    pub fn pinned_kinds(&self) -> (list: Vec<(u64, LiveKind)>)
        requires
            self.wf(),
        ensures
            lists_kinds(list@, self@.kinds, |kind: LiveKind| is_pinned(kind)),
    {
        self.list_kinds(true)
    }

    fn list_kinds(&self, pinned_only: bool) -> (list: Vec<(u64, LiveKind)>)
        requires
            self.wf(),
        ensures
            lists_kinds(list@, self@.kinds, |kind: LiveKind| !pinned_only || is_pinned(kind)),
            !pinned_only ==> lists_kinds(list@, self@.kinds, |kind: LiveKind| true),
            pinned_only ==> lists_kinds(list@, self@.kinds, |kind: LiveKind| is_pinned(kind)),
    {
        let mut list: Vec<(u64, LiveKind)> = Vec::new();
        let mut i: usize = 0;
        let ghost keys = self.kinds.key_list();
        while i < self.kinds.len()
            invariant
                self.wf(),
                keys == self.kinds.key_list(),
                i <= keys.len(),
                forall|j: int|
                    #![trigger list@[j]]
                    0 <= j < list@.len() ==> self@.kinds.contains_key(list@[j].0)
                        && self@.kinds[list@[j].0] == list@[j].1 && (!pinned_only || is_pinned(
                        list@[j].1,
                    )) && exists|k: int| 0 <= k < i && #[trigger] keys[k] == list@[j].0,
                forall|j: int, k: int|
                    0 <= j < k < list@.len() ==> (#[trigger] list@[j]).0 < (#[trigger] list@[k]).0,
                forall|k: int|
                    0 <= k < i && (!pinned_only || is_pinned(self@.kinds[#[trigger] keys[k]]))
                        ==> exists|j: int| 0 <= j < list@.len() && (#[trigger] list@[j]).0 == keys[k],
            decreases keys.len() - i,
        {
            let ghost before = list@;
            proof {
                self.kinds.lemma_entry(i as int);
            }
            let value = self.kinds.value_at(i);
            let wanted = !pinned_only || match &value.pins {
                Some(pins) => pins.any(),
                None => false,
            };
            let id: u64 = *self.kinds.key_at(i);
            if wanted {
                list.push((id, value.clone()));
                proof {
                    assert(keys[i as int] == id);
                    assert(list@[list@.len() - 1].0 == id);
                    assert forall|j: int, k: int| 0 <= j < k < list@.len() implies (
                    #[trigger] list@[j]).0 < (#[trigger] list@[k]).0 by {
                        assert(list@[j] == before[j]);
                        if k < before.len() {
                            assert(list@[k] == before[k]);
                        } else {
                            let a = choose|a: int| 0 <= a < i && #[trigger] keys[a] == list@[j].0;
                            assert(keys[a] < keys[i as int]);
                        }
                    }
                }
            }
            proof {
                assert forall|k: int|
                    0 <= k < i + 1 && (!pinned_only || is_pinned(
                        self@.kinds[#[trigger] keys[k]],
                    )) implies exists|j: int|
                    0 <= j < list@.len() && (#[trigger] list@[j]).0 == keys[k] by {
                    if k < i {
                        let j = choose|j: int|
                            0 <= j < before.len() && (#[trigger] before[j]).0 == keys[k];
                        assert(list@[j].0 == keys[k]);
                    }
                }
            }
            i += 1;
        }
        proof {
            assert forall|id: u64| #[trigger]
                self@.kinds.contains_key(id) && (!pinned_only || is_pinned(
                    self@.kinds[id],
                )) implies exists|j: int| 0 <= j < list@.len() && (#[trigger] list@[j]).0 == id by {
                let k = self.kinds.lemma_key(id);
                assert(keys[k] == id);
            }
        }
        list
    }

    /// One live kind.
    pub fn kind(&self, id: u64) -> (kind: Option<LiveKind>)
        requires
            self.wf(),
        ensures
            kind == if self@.kinds.contains_key(id) {
                Some(self@.kinds[id])
            } else {
                None
            },
    {
        match self.kinds.get(&id) {
            Some(kind) => Some(kind.clone()),
            None => None,
        }
    }

    /// Whether the kind is live.
    pub fn is_live(&self, id: u64) -> (b: bool)
        requires
            self.wf(),
        ensures
            b == self@.kinds.contains_key(id),
    {
        self.kinds.contains_key(&id)
    }

    /// The name that the game has given this connection.
    pub fn client_id(&self) -> (id: Option<u64>)
        ensures
            id == self@.client_id,
    {
        self.client_id
    }

    /// The identity of this connection, once the game has given it a name. It stays unique when
    /// the game gives the same name again.
    pub fn connection_epoch(&self) -> (epoch: Option<u64>)
        ensures
            epoch == if self@.client_id is Some {
                Some(self@.connection_epoch)
            } else {
                None
            },
    {
        if self.client_id.is_some() {
            Some(self.connection_epoch)
        } else {
            None
        }
    }

    /// Every captured line with its motion, by ascending motion.
    pub fn all_captures(&self) -> (list: Vec<(u64, CaptureLine)>)
        requires
            self.wf(),
        ensures
            exists|motions: Seq<u64>|
                #![trigger tagged_lines(motions, self@.captures)]
                crate::sorted::ascending::<u64>(motions) && motions.to_set() == self@.captures.dom()
                    && tagged_views(list@) == tagged_lines(motions, self@.captures),
    {
        let mut list: Vec<(u64, CaptureLine)> = Vec::new();
        let ghost motions = self.captures.key_list();
        let ghost captures = self@.captures;
        let mut i: usize = 0;
        assert(tagged_views(list@) =~= tagged_lines(motions.take(0), captures));
        while i < self.captures.len()
            invariant
                self.wf(),
                motions == self.captures.key_list(),
                captures == self@.captures,
                i <= motions.len(),
                tagged_views(list@) == tagged_lines(motions.take(i as int), captures),
            decreases motions.len() - i,
        {
            let motion: u64 = *self.captures.key_at(i);
            let lines = self.captures.value_at(i);
            let ghost done = tagged_views(list@);
            proof {
                self.captures.lemma_entry(i as int);
                assert(captures[motion] == crate::link::line_views(lines@));
                assert(motions.take(i + 1).drop_last() =~= motions.take(i as int));
            }
            let mut k: usize = 0;
            while k < lines.len()
                invariant
                    k <= lines@.len(),
                    captures[motion] == crate::link::line_views(lines@),
                    tagged_views(list@) == done + Seq::new(
                        k as nat,
                        |j: int| (motion, captures[motion][j]),
                    ),
                decreases lines@.len() - k,
            {
                let ghost before = tagged_views(list@);
                let line = lines[k].clone();
                list.push((motion, line));
                proof {
                    assert(tagged_views(list@) =~= before.push((motion, line@)));
                    assert(before.push((motion, line@)) =~= done + Seq::new(
                        (k + 1) as nat,
                        |j: int| (motion, captures[motion][j]),
                    ));
                }
                k += 1;
            }
            i += 1;
        }
        proof {
            assert(motions.take(i as int) =~= motions);
            self.captures.lemma_lists();
            assert(motions.to_set() =~= captures.dom());
        }
        list
    }

    /// How far the effect carrier is: its state, the kinds it knows, the reports so far, and
    /// whether it can spawn.
    pub fn carrier_status(&self) -> (status: (u8, usize, u64, bool))
        ensures
            status == (
                self@.carrier_state,
                self@.carrier_kinds,
                self@.carrier_seq,
                self@.carrier_spawned,
            ),
    {
        (self.carrier_state, self.carrier_kinds, self.carrier_seq, self.carrier_spawned)
    }

    /// The generation that the live effect carrier was built from.
    pub fn carrier_gen(&self) -> (generation: u64)
        ensures
            generation == self@.carrier_gen,
    {
        self.carrier_gen
    }

    /// Takes the reason why the last effect carrier was refused.
    pub fn take_carrier_error(&mut self) -> (error: Option<String>)
        requires
            old(self).wf(),
        ensures
            final(self).wf(),
            crate::events::optional_text(error) == old(self)@.carrier_error,
            final(self)@ == (crate::link::LinkView { carrier_error: None, ..old(self)@ }),
    {
        self.carrier_error.take()
    }

    /// The last report on the asset carrier, and how many there were.
    pub fn asset_bundle_status(&self) -> (status: AssetBundleStatus)
        ensures
            status.report() == self@.asset,
            status.reports == self@.asset_seq,
    {
        AssetBundleStatus {
            target: self.asset.target.clone(),
            generation: self.asset.generation,
            staged: self.asset.staged,
            served: self.asset.served,
            serving_generation: self.asset.serving_generation,
            phase: self.asset.phase.clone(),
            ready: self.asset.ready,
            reports: self.asset_seq,
        }
    }

    /// Takes the reason why the last asset bundle was refused.
    pub fn take_asset_bundle_error(&mut self) -> (error: Option<String>)
        requires
            old(self).wf(),
        ensures
            final(self).wf(),
            crate::events::optional_text(error) == old(self)@.asset_error,
            final(self)@ == (crate::link::LinkView { asset_error: None, ..old(self)@ }),
    {
        self.asset_error.take()
    }

    /// A counter that moves with every change of the captures.
    pub fn captures_seq(&self) -> (n: u64)
        ensures
            n == self@.captures_seq,
    {
        self.captures_seq
    }
}

// ── Laws ─────────────────────────────────────────────────────────────────────

/// The asset carrier never seems to go back: no event lowers the generation.
pub proof fn law_asset_generation_never_falls(
    s: crate::link::LinkView,
    event: crate::events::EventView,
    now: u64,
)
    ensures
        s.asset.generation <= crate::link::applied(
            crate::link::received(s, now),
            event,
        ).asset.generation,
{
}

/// Each time the game names the connection, the epoch changes, also where the name is the same.
pub proof fn law_each_handshake_has_its_own_epoch(
    s: crate::link::LinkView,
    client_id: u64,
    now: u64,
)
    ensures
        ({
            let t = crate::link::applied(
                crate::link::received(s, now),
                crate::events::EventView::ClientId { client_id: Some(client_id) },
            );
            t.client_id == Some(client_id) && t.connection_epoch >= 1 && t.connection_epoch
                != s.connection_epoch
        }),
{
}

/// All captures are read: every line of every motion, with its motion, and nothing else.
pub proof fn law_every_line_is_read(
    motions: Seq<u64>,
    captures: Map<u64, Seq<crate::wire::CaptureView>>,
    motion: u64,
    line: crate::wire::CaptureView,
)
    ensures
        tagged_lines(motions, captures).contains((motion, line)) <==> motions.contains(motion)
            && captures[motion].contains(line),
    decreases motions.len(),
{
    let all = tagged_lines(motions, captures);
    if motions.len() > 0 {
        let rest = motions.drop_last();
        let last = motions.last();
        law_every_line_is_read(rest, captures, motion, line);
        let before = tagged_lines(rest, captures);
        let more = Seq::new(captures[last].len(), |i: int| (last, captures[last][i]));
        assert(all == before + more);
        if all.contains((motion, line)) {
            let k = all.index_of((motion, line));
            if k < before.len() {
                assert(before[k] == (motion, line));
                let j = rest.index_of(motion);
                assert(motions[j] == motion);
            } else {
                assert(more[k - before.len()] == (motion, line));
                assert(motions[motions.len() - 1] == motion);
                assert(captures[motion][k - before.len()] == line);
            }
        }
        if motions.contains(motion) && captures[motion].contains(line) {
            if rest.contains(motion) {
                let k = before.index_of((motion, line));
                assert(all[k] == (motion, line));
            } else {
                let j = motions.index_of(motion);
                assert(j == motions.len() - 1) by {
                    if j < rest.len() {
                        assert(rest[j] == motion);
                    }
                }
                let i = captures[motion].index_of(line);
                assert(more[i] == (motion, line));
                assert(all[before.len() + i] == (motion, line));
            }
        }
    }
}

/// A kind counts as pinned where any one thing of it is pinned.
pub proof fn law_pinned_kinds_have_a_pin(kind: LiveKind)
    ensures
        is_pinned(kind) <==> match kind.pins {
            Some(pins) => pins.scale is Some || pins.rate is Some || pins.pos is Some || pins.rot
                is Some || pins.visible is Some || pins.frame is Some || pins.color is Some
                || pins.movement_state is Some,
            None => false,
        },
{
}

} // verus!
